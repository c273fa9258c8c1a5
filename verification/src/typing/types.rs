//! The types of Rainbow expressions, and their mathematical model.
use crate::text::{str_lt, string_lt};
use vstd::prelude::*;

verus! {

/// The type of a Rainbow expression.
///
/// A record's fields are kept in ascending order of their names, each name once, so
/// that two record types with the same fields are the same value.
#[derive(Debug)]
pub enum Type {
    Any,
    Never,
    Num,
    Str,
    Bool,
    Time,
    Money,
    /// A list whose elements all have the given type.
    List(Box<Type>),
    /// A record. The flag says that it is partial: a row fragment that other fields may
    /// still join. Unification produces partial records, and closes them in the end.
    Record(bool, Vec<(String, RecordField)>),
    /// A block, by the types of its inputs and of its output.
    Block(Vec<Type>, Box<Type>),
    /// A type variable.
    Var(String),
}

/// One field of a record type.
#[derive(Debug)]
pub struct RecordField {
    pub optional: bool,
    pub ty: Type,
}

/// The mathematical model of a [`Type`].
pub enum Ty {
    Any,
    Never,
    Num,
    Str,
    Bool,
    Time,
    Money,
    List(Box<Ty>),
    Record(bool, Seq<FieldTy>),
    Block(Seq<Ty>, Box<Ty>),
    Var(Seq<char>),
}

/// The mathematical model of a named record field.
pub struct FieldTy {
    pub name: Seq<char>,
    pub optional: bool,
    pub ty: Ty,
}

/// The model of a type.
pub open spec fn type_view(t: Type) -> Ty
    decreases t,
{
    match t {
        Type::Any => Ty::Any,
        Type::Never => Ty::Never,
        Type::Num => Ty::Num,
        Type::Str => Ty::Str,
        Type::Bool => Ty::Bool,
        Type::Time => Ty::Time,
        Type::Money => Ty::Money,
        Type::List(e) => Ty::List(Box::new(type_view(*e))),
        Type::Record(partial, fields) => Ty::Record(
            partial,
            Seq::new(
                fields@.len(),
                |i: int|
                    if 0 <= i < fields@.len() {
                        FieldTy {
                            name: fields@[i].0@,
                            optional: fields@[i].1.optional,
                            ty: type_view(fields@[i].1.ty),
                        }
                    } else {
                        arbitrary()
                    },
            ),
        ),
        Type::Block(inputs, output) => Ty::Block(
            Seq::new(
                inputs@.len(),
                |i: int|
                    if 0 <= i < inputs@.len() {
                        type_view(inputs@[i])
                    } else {
                        arbitrary()
                    },
            ),
            Box::new(type_view(*output)),
        ),
        Type::Var(name) => Ty::Var(name@),
    }
}

impl View for Type {
    type V = Ty;

    open spec fn view(&self) -> Ty {
        type_view(*self)
    }
}

/// The model of a list of named fields.
pub open spec fn fields_view(fields: Seq<(String, RecordField)>) -> Seq<FieldTy> {
    Seq::new(
        fields.len(),
        |i: int|
            FieldTy { name: fields[i].0@, optional: fields[i].1.optional, ty: fields[i].1.ty@ },
    )
}

/// The model of a list of types.
pub open spec fn types_view(types: Seq<Type>) -> Seq<Ty> {
    Seq::new(types.len(), |i: int| types[i]@)
}

/// A record type's model lists the models of its fields.
pub proof fn lemma_record_view(partial: bool, fields: Vec<(String, RecordField)>)
    ensures
        Type::Record(partial, fields)@ == Ty::Record(partial, fields_view(fields@)),
{
    assert(Type::Record(partial, fields)@->Record_1 =~= fields_view(fields@));
}

/// A block type's model lists the models of its inputs.
pub proof fn lemma_block_view(inputs: Vec<Type>, output: Box<Type>)
    ensures
        Type::Block(inputs, output)@ == Ty::Block(types_view(inputs@), Box::new((*output)@)),
{
    assert(Type::Block(inputs, output)@->Block_0 =~= types_view(inputs@));
}

/// A copy of a list of types.
fn clone_types(types: &Vec<Type>) -> (out: Vec<Type>)
    ensures
        types_view(out@) == types_view(types@),
    decreases types,
{
    let mut out: Vec<Type> = Vec::with_capacity(types.len());
    let mut i: usize = 0;
    while i < types.len()
        invariant
            i <= types.len(),
            out@.len() == i,
            forall|j: int| 0 <= j < i ==> out@[j]@ == types@[j]@,
        decreases types.len() - i,
    {
        out.push(clone_type(&types[i]));
        i += 1;
    }
    proof {
        assert(types_view(out@) =~= types_view(types@));
    }
    out
}

/// A copy of a list of fields.
fn clone_fields(fields: &Vec<(String, RecordField)>) -> (out: Vec<(String, RecordField)>)
    ensures
        fields_view(out@) == fields_view(fields@),
    decreases fields,
{
    let mut out: Vec<(String, RecordField)> = Vec::with_capacity(fields.len());
    let mut i: usize = 0;
    while i < fields.len()
        invariant
            i <= fields.len(),
            out@.len() == i,
            forall|j: int| 0 <= j < i ==> fields_view(out@)[j] == fields_view(fields@)[j],
        decreases fields.len() - i,
    {
        let ty = clone_type(&fields[i].1.ty);
        out.push((fields[i].0.clone(), RecordField { optional: fields[i].1.optional, ty }));
        i += 1;
    }
    proof {
        assert(fields_view(out@) =~= fields_view(fields@));
    }
    out
}

/// A copy of a type.
pub fn clone_type(t: &Type) -> (out: Type)
    ensures
        out@ == t@,
    decreases t,
{
    match t {
        Type::Any => Type::Any,
        Type::Never => Type::Never,
        Type::Num => Type::Num,
        Type::Str => Type::Str,
        Type::Bool => Type::Bool,
        Type::Time => Type::Time,
        Type::Money => Type::Money,
        Type::List(e) => Type::List(Box::new(clone_type(e))),
        Type::Record(partial, fields) => {
            let out = clone_fields(fields);
            proof {
                lemma_record_view(*partial, *fields);
                lemma_record_view(*partial, out);
            }
            Type::Record(*partial, out)
        },
        Type::Block(inputs, output) => {
            let ins = clone_types(inputs);
            let out = Box::new(clone_type(output));
            proof {
                lemma_block_view(*inputs, *output);
                lemma_block_view(ins, out);
            }
            Type::Block(ins, out)
        },
        Type::Var(name) => Type::Var(name.clone()),
    }
}

impl Clone for Type {
    fn clone(&self) -> (out: Type)
        ensures
            out@ == self@,
    {
        clone_type(self)
    }
}

impl Clone for RecordField {
    fn clone(&self) -> (out: RecordField)
        ensures
            out.optional == self.optional,
            out.ty@ == self.ty@,
    {
        RecordField { optional: self.optional, ty: clone_type(&self.ty) }
    }
}

/// Whether two lists of types are the same, item by item.
fn eq_types(a: &Vec<Type>, b: &Vec<Type>) -> (r: bool)
    ensures
        r == (types_view(a@) == types_view(b@)),
    decreases a,
{
    if a.len() != b.len() {
        assert(types_view(a@).len() != types_view(b@).len());
        return false;
    }
    let mut i: usize = 0;
    while i < a.len()
        invariant
            a.len() == b.len(),
            i <= a.len(),
            forall|j: int| 0 <= j < i ==> a@[j]@ == b@[j]@,
        decreases a.len() - i,
    {
        if !type_eq(&a[i], &b[i]) {
            assert(types_view(a@)[i as int] != types_view(b@)[i as int]);
            return false;
        }
        i += 1;
    }
    assert(types_view(a@) =~= types_view(b@));
    true
}

/// Whether two lists of fields are the same, item by item.
fn eq_fields(a: &Vec<(String, RecordField)>, b: &Vec<(String, RecordField)>) -> (r: bool)
    ensures
        r == (fields_view(a@) == fields_view(b@)),
    decreases a,
{
    if a.len() != b.len() {
        assert(fields_view(a@).len() != fields_view(b@).len());
        return false;
    }
    let mut i: usize = 0;
    while i < a.len()
        invariant
            a.len() == b.len(),
            i <= a.len(),
            forall|j: int| 0 <= j < i ==> fields_view(a@)[j] == fields_view(b@)[j],
        decreases a.len() - i,
    {
        let same = a[i].0 == b[i].0 && a[i].1.optional == b[i].1.optional && type_eq(
            &a[i].1.ty,
            &b[i].1.ty,
        );
        if !same {
            assert(fields_view(a@)[i as int] != fields_view(b@)[i as int]);
            return false;
        }
        i += 1;
    }
    assert(fields_view(a@) =~= fields_view(b@));
    true
}

/// Whether two types are the same.
pub fn type_eq(a: &Type, b: &Type) -> (r: bool)
    ensures
        r == (a@ == b@),
    decreases a,
{
    match (a, b) {
        (Type::Any, Type::Any) => true,
        (Type::Never, Type::Never) => true,
        (Type::Num, Type::Num) => true,
        (Type::Str, Type::Str) => true,
        (Type::Bool, Type::Bool) => true,
        (Type::Time, Type::Time) => true,
        (Type::Money, Type::Money) => true,
        (Type::List(x), Type::List(y)) => type_eq(x, y),
        (Type::Record(p, x), Type::Record(q, y)) => {
            proof {
                lemma_record_view(*p, *x);
                lemma_record_view(*q, *y);
            }
            *p == *q && eq_fields(x, y)
        },
        (Type::Block(xi, xo), Type::Block(yi, yo)) => {
            proof {
                lemma_block_view(*xi, *xo);
                lemma_block_view(*yi, *yo);
            }
            eq_types(xi, yi) && type_eq(xo, yo)
        },
        (Type::Var(x), Type::Var(y)) => *x == *y,
        _ => false,
    }
}

impl PartialEq for Type {
    fn eq(&self, other: &Type) -> (r: bool) {
        type_eq(self, other)
    }
}

impl vstd::std_specs::cmp::PartialEqSpecImpl for Type {
    open spec fn obeys_eq_spec() -> bool {
        true
    }

    open spec fn eq_spec(&self, other: &Type) -> bool {
        self@ == other@
    }
}

impl Eq for Type {

}

impl PartialEq for RecordField {
    fn eq(&self, other: &RecordField) -> (r: bool) {
        self.optional == other.optional && type_eq(&self.ty, &other.ty)
    }
}

impl vstd::std_specs::cmp::PartialEqSpecImpl for RecordField {
    open spec fn obeys_eq_spec() -> bool {
        true
    }

    open spec fn eq_spec(&self, other: &RecordField) -> bool {
        self.optional == other.optional && self.ty@ == other.ty@
    }
}

impl Eq for RecordField {

}

impl Default for Type {
    fn default() -> (t: Type)
        ensures
            t@ == Ty::Any,
    {
        Type::Any
    }
}

/// The first position at or after `i` whose field does not come before `name`:
/// where a field of that name stands, or where it would be put.
pub open spec fn field_slot(fields: Seq<FieldTy>, name: Seq<char>, i: int) -> int
    decreases fields.len() - i,
{
    if i < 0 || i >= fields.len() {
        fields.len() as int
    } else if fields[i].name == name || str_lt(name, fields[i].name) {
        i
    } else {
        field_slot(fields, name, i + 1)
    }
}

/// The field list with `field` put in: in place of the field of the same name, or else
/// before the first field whose name comes after its own.
pub open spec fn insert_field(fields: Seq<FieldTy>, field: FieldTy) -> Seq<FieldTy> {
    let i = field_slot(fields, field.name, 0);
    if i < fields.len() && fields[i].name == field.name {
        fields.update(i, field)
    } else {
        fields.insert(i, field)
    }
}

/// The position of the first field called `name` at or after `i`, if there is one.
pub open spec fn field_index(fields: Seq<FieldTy>, name: Seq<char>, i: int) -> Option<int>
    decreases fields.len() - i,
{
    if i < 0 || i >= fields.len() {
        None
    } else if fields[i].name == name {
        Some(i)
    } else {
        field_index(fields, name, i + 1)
    }
}

/// `field_index` finds a field of the given name.
pub proof fn lemma_field_index(fields: Seq<FieldTy>, name: Seq<char>, i: int)
    requires
        0 <= i,
    ensures
        match field_index(fields, name, i) {
            Some(k) => i <= k < fields.len() && fields[k].name == name,
            None => forall|k: int| i <= k < fields.len() ==> (#[trigger] fields[k]).name != name,
        },
    decreases fields.len() - i,
{
    if i < fields.len() && fields[i].name != name {
        lemma_field_index(fields, name, i + 1);
    }
}

/// Puts a field into a field list: see `insert_field`.
pub fn put_field(fields: &mut Vec<(String, RecordField)>, name: String, field: RecordField)
    ensures
        fields_view(final(fields)@) == insert_field(
            fields_view(old(fields)@),
            FieldTy { name: name@, optional: field.optional, ty: field.ty@ },
        ),
{
    let ghost before = fields_view(fields@);
    let ghost added = FieldTy { name: name@, optional: field.optional, ty: field.ty@ };
    let mut i: usize = 0;
    let mut found: bool = false;
    while i < fields.len()
        invariant_except_break
            !found,
            field_slot(before, name@, i as int) == field_slot(before, name@, 0),
        invariant
            i <= fields.len(),
            fields_view(fields@) == before,
        ensures
            i <= fields.len(),
            fields_view(fields@) == before,
            i == field_slot(before, name@, 0),
            found == (i < fields.len() && before[i as int].name == name@),
        decreases fields.len() - i,
    {
        if fields[i].0 == name {
            found = true;
            break ;
        }
        if string_lt(name.as_str(), fields[i].0.as_str()) {
            break ;
        }
        i += 1;
    }
    if found {
        fields.set(i, (name, field));
        assert(fields_view(fields@) =~= before.update(i as int, added));
    } else {
        fields.insert(i, (name, field));
        assert(fields_view(fields@) =~= before.insert(i as int, added));
    }
}

/// The position of the field called `name`, if the list has one.
pub fn find_field(fields: &Vec<(String, RecordField)>, name: &String) -> (found: Option<usize>)
    ensures
        match found {
            Some(k) => field_index(fields_view(fields@), name@, 0) == Some(k as int) && k
                < fields.len(),
            None => field_index(fields_view(fields@), name@, 0) is None,
        },
{
    let mut i: usize = 0;
    while i < fields.len()
        invariant
            i <= fields.len(),
            field_index(fields_view(fields@), name@, i as int) == field_index(
                fields_view(fields@),
                name@,
                0,
            ),
        decreases fields.len() - i,
    {
        if fields[i].0 == *name {
            return Some(i);
        }
        i += 1;
    }
    None
}

impl Type {
    /// The type of a block that takes no input and gives a `t`.
    pub fn quoted(t: Type) -> (out: Type)
        ensures
            out@ == Ty::Block(Seq::empty(), Box::new(t@)),
    {
        let inputs: Vec<Type> = Vec::new();
        let output = Box::new(t);
        proof {
            lemma_block_view(inputs, output);
            assert(types_view(inputs@) =~= Seq::empty());
        }
        Type::Block(inputs, output)
    }

    /// The type of a block from `inputs` to `output`.
    pub fn block_from_to(inputs: Vec<Type>, output: Type) -> (out: Type)
        ensures
            out@ == Ty::Block(types_view(inputs@), Box::new(output@)),
    {
        let output = Box::new(output);
        proof {
            lemma_block_view(inputs, output);
        }
        Type::Block(inputs, output)
    }

    /// The type of a list of `t`.
    pub fn list_of(t: Type) -> (out: Type)
        ensures
            out@ == Ty::List(Box::new(t@)),
    {
        Type::List(Box::new(t))
    }

    /// The closed record type with the given fields. Where a name comes twice, the
    /// later field stands.
    pub fn record_from_map(map: Vec<(String, RecordField)>) -> (out: Type)
        ensures
            out@ == Ty::Record(false, sorted_fields(fields_view(map@), 0, Seq::empty())),
    {
        let mut fields: Vec<(String, RecordField)> = Vec::with_capacity(map.len());
        let ghost all = fields_view(map@);
        assert(fields_view(fields@) =~= Seq::empty());
        let mut i: usize = 0;
        while i < map.len()
            invariant
                i <= map.len(),
                all == fields_view(map@),
                sorted_fields(all, i as int, fields_view(fields@)) == sorted_fields(
                    all,
                    0,
                    Seq::empty(),
                ),
            decreases map.len() - i,
        {
            let field = map[i].1.clone();
            put_field(&mut fields, map[i].0.clone(), field);
            i += 1;
        }
        proof {
            lemma_record_view(false, fields);
        }
        Type::Record(false, fields)
    }

    /// The closed record type with a required field for each pair. Where a name comes
    /// twice, the later pair stands.
    pub fn record_from_iter(pairs: Vec<(String, Type)>) -> (out: Type)
        ensures
            out@ == Ty::Record(false, sorted_fields(required_fields(pairs@), 0, Seq::empty())),
    {
        let mut fields: Vec<(String, RecordField)> = Vec::with_capacity(pairs.len());
        let ghost all = required_fields(pairs@);
        assert(fields_view(fields@) =~= Seq::empty());
        let mut i: usize = 0;
        while i < pairs.len()
            invariant
                i <= pairs.len(),
                all == required_fields(pairs@),
                sorted_fields(all, i as int, fields_view(fields@)) == sorted_fields(
                    all,
                    0,
                    Seq::empty(),
                ),
            decreases pairs.len() - i,
        {
            let ty = clone_type(&pairs[i].1);
            put_field(&mut fields, pairs[i].0.clone(), RecordField { optional: false, ty });
            i += 1;
        }
        proof {
            lemma_record_view(false, fields);
        }
        Type::Record(false, fields)
    }

    /// The partial record type with the one field `name`.
    pub fn record_with_one_field(name: &str, ty: Type, optional: bool) -> (out: Type)
        ensures
            out@ == Ty::Record(true, seq![FieldTy { name: name@, optional, ty: ty@ }]),
    {
        let mut fields: Vec<(String, RecordField)> = Vec::new();
        fields.push((name.to_owned(), RecordField::new(ty, optional)));
        proof {
            lemma_record_view(true, fields);
            assert(fields_view(fields@) =~= seq![FieldTy { name: name@, optional, ty: ty@ }]);
        }
        Type::Record(true, fields)
    }

    /// The type variable called `name`.
    pub fn var(name: &str) -> (out: Type)
        ensures
            out@ == Ty::Var(name@),
    {
        Type::Var(name.to_owned())
    }

    /// The name, if this is a type variable.
    pub fn var_name(&self) -> (name: Option<&String>)
        ensures
            match name {
                Some(n) => self@ == Ty::Var(n@),
                None => !(self@ is Var),
            },
    {
        match self {
            Type::Var(name) => Some(name),
            _ => None,
        }
    }
}

/// The fields of `all` from position `i` on, put one after the other into `acc`.
pub open spec fn sorted_fields(all: Seq<FieldTy>, i: int, acc: Seq<FieldTy>) -> Seq<FieldTy>
    decreases all.len() - i,
{
    if i < 0 || i >= all.len() {
        acc
    } else {
        sorted_fields(all, i + 1, insert_field(acc, all[i]))
    }
}

/// A required field for each pair of a name and a type.
pub open spec fn required_fields(pairs: Seq<(String, Type)>) -> Seq<FieldTy> {
    Seq::new(pairs.len(), |i: int| FieldTy { name: pairs[i].0@, optional: false, ty: pairs[i].1@ })
}

impl RecordField {
    pub fn new(ty: Type, optional: bool) -> (field: RecordField)
        ensures
            field.ty == ty,
            field.optional == optional,
    {
        RecordField { ty, optional }
    }

    pub fn required(&self) -> (r: bool)
        ensures
            r == !self.optional,
    {
        !self.optional
    }

    pub fn optional(&self) -> (r: bool)
        ensures
            r == self.optional,
    {
        self.optional
    }

    pub fn get_type(&self) -> (ty: &Type)
        ensures
            *ty == self.ty,
    {
        &self.ty
    }

    /// The field with `f` applied to its type.
    pub fn map_type<F: Fn(Type) -> Type>(self, f: F) -> (field: RecordField)
        requires
            call_requires(f, (self.ty,)),
        ensures
            field.optional == self.optional,
            call_ensures(f, (self.ty,), field.ty),
    {
        RecordField { ty: f(self.ty), optional: self.optional }
    }

    /// A field with `f` of this field's type.
    pub fn mutate_type<F: Fn(&Type) -> Type>(&self, f: F) -> (field: RecordField)
        requires
            call_requires(f, (&self.ty,)),
        ensures
            field.optional == self.optional,
            call_ensures(f, (&self.ty,), field.ty),
    {
        RecordField { ty: f(&self.ty), optional: self.optional }
    }
}

} // verus!
