//! Checks a value against a type at run time.
use super::types::{lemma_record_view, Ty, Type};
use crate::interpreter::value::{List, Record, Value};
use crate::interpreter::machine::raised;
use crate::text::{decimal, decimal_text, push_text};
use crate::with_error::WithError;
use vstd::prelude::*;

verus! {

/// Whether no value can be of the type, whatever the host says of the value: the
/// type `Never`, and money, which the machine does not compute with.
pub open spec fn unsatisfiable(t: Ty) -> bool {
    t is Never || t is Money
}

/// Whether every value is of the type.
pub open spec fn always_satisfied(t: Ty) -> bool {
    t is Any || t is Var
}

/// Whether `errors` holds one error, made of the message `text`.
pub open spec fn one_raised<V: Value>(text: Seq<char>, errors: Seq<V::Error>) -> bool {
    errors.len() == 1 && raised::<V>(text, errors[0])
}

/// Whether `errors` holds what is noted of a failure: nothing where there is none,
/// and else one error, made of `prefix` and the text of the failure.
pub open spec fn noted<V: Value>(
    failure: Option<V::Error>,
    prefix: Seq<char>,
    errors: Seq<V::Error>,
) -> bool {
    match failure {
        None => errors.len() == 0,
        Some(err) => told::<V>(err, prefix, errors),
    }
}

/// Whether `errors` holds one error, made of `prefix` and the text of the error `err`.
pub open spec fn told<V: Value>(err: V::Error, prefix: Seq<char>, errors: Seq<V::Error>) -> bool {
    exists|text: String| #[trigger]
        call_ensures(V::error_text, (&err,), text) && one_raised::<V>(prefix + text@, errors)
}

/// The error of an outcome, if it is one.
pub open spec fn failure_of<T, E>(outcome: Result<T, E>) -> Option<E> {
    match outcome {
        Ok(_) => None,
        Err(e) => Some(e),
    }
}

/// The first `k` of the parts, one after the other.
pub open spec fn joined<E>(parts: Seq<Seq<E>>, k: int) -> Seq<E>
    decreases k,
{
    if k <= 0 || k > parts.len() {
        Seq::empty()
    } else {
        joined(parts, k - 1) + parts[k - 1]
    }
}

/// Whether `errors` is made of the `n` parts, in their order.
pub open spec fn portions<E>(parts: Seq<Seq<E>>, n: int, errors: Seq<E>) -> bool {
    parts.len() == n && errors == joined(parts, n)
}

/// The path to the element `i` of a list that has the path `prefix`.
pub open spec fn item_prefix(prefix: Seq<char>, i: int) -> Seq<char> {
    prefix + "item "@ + decimal_text(i as u64) + ": "@
}

/// The path to the field `name` of a record that has the path `prefix`.
pub open spec fn field_prefix(prefix: Seq<char>, name: Seq<char>) -> Seq<char> {
    prefix + "field `"@ + name + "` "@
}

/// The message for a required field that a record lacks.
pub open spec fn required_text(name: Seq<char>) -> Seq<char> {
    "field `"@ + name + "` is required"@
}

/// Whether `errors` is what checking `value` against the type `t` gives, for a value
/// with the path `prefix`, in the order in which the parts of the value are checked.
///
/// Every value is of the type `Any` and of a type variable, and none is of `Never` or
/// `Money`. Whether a value is a number, a string, a boolean or a time is for the
/// value to say; its error is noted with the path before it. A value that is no list
/// or no record gives its own error. Each element that a list has is checked against
/// the element type, under the path of the element. Each field of a record type is
/// looked up in the record by its name: a field that is there is checked against the
/// field's type, under the path of the field, and a required field that is not there
/// is an error. A value that is not callable is no block.
pub open spec fn checked<V: Value>(
    t: Ty,
    value: V,
    prefix: Seq<char>,
    errors: Seq<V::Error>,
) -> bool
    decreases t, 0nat,
{
    match t {
        Ty::Any => errors.len() == 0,
        Ty::Var(_) => errors.len() == 0,
        Ty::Never => one_raised::<V>(prefix + "unexpected value"@, errors),
        Ty::Money => one_raised::<V>("money type is not ready yet"@, errors),
        Ty::Num => exists|got: Result<(), V::Error>| #[trigger]
            call_ensures(V::try_number, (&value,), got) && noted::<V>(
                failure_of(got),
                prefix,
                errors,
            ),
        Ty::Str => exists|got: Result<&str, V::Error>| #[trigger]
            call_ensures(V::try_string, (&value,), got) && noted::<V>(
                failure_of(got),
                prefix,
                errors,
            ),
        Ty::Bool => exists|got: Result<bool, V::Error>| #[trigger]
            call_ensures(V::try_bool, (&value,), got) && noted::<V>(
                failure_of(got),
                prefix,
                errors,
            ),
        Ty::Time => exists|got: Result<u64, V::Error>| #[trigger]
            call_ensures(V::try_time, (&value,), got) && noted::<V>(
                failure_of(got),
                prefix,
                errors,
            ),
        Ty::List(e) => exists|got: Result<V::List, V::Error>| #[trigger]
            call_ensures(V::try_list, (&value,), got) && match got {
                Err(err) => errors == seq![err],
                Ok(list) => exists|n: usize| #[trigger]
                    call_ensures(<V::List as List<V>>::len, (&list,), n) && exists|
                        parts: Seq<Seq<V::Error>>,
                    | #[trigger]
                        portions(parts, n as int, errors) && forall|i: int|
                            #![trigger parts[i]]
                            0 <= i < n ==> item_checked::<V>(*e, list, prefix, i, parts[i]),
            },
        Ty::Record(_, fields) => exists|got: Result<V::Record, V::Error>| #[trigger]
            call_ensures(V::try_record, (&value,), got) && match got {
                Err(err) => errors == seq![err],
                Ok(record) => exists|parts: Seq<Seq<V::Error>>| #[trigger]
                    portions(parts, fields.len() as int, errors) && forall|i: int|
                        #![trigger parts[i]]
                        0 <= i < fields.len() ==> field_checked::<V>(
                            fields[i].ty,
                            fields[i].name,
                            fields[i].optional,
                            record,
                            prefix,
                            parts[i],
                        ),
            },
        Ty::Block(_, _) => exists|yes: bool| #[trigger]
            call_ensures(V::callable, (&value,), yes) && if yes {
                errors.len() == 0
            } else {
                one_raised::<V>("not a block"@, errors)
            },
    }
}

/// Whether `part` is what checking the element `i` of a list against the type `e`
/// gives: nothing if the list has no such element, and else what checking the element
/// gives under its path.
pub open spec fn item_checked<V: Value>(
    e: Ty,
    list: V::List,
    prefix: Seq<char>,
    i: int,
    part: Seq<V::Error>,
) -> bool
    decreases e, 1nat,
{
    exists|item: Option<V>| #[trigger]
        call_ensures(<V::List as List<V>>::at, (&list, i as usize), item) && match item {
            Some(x) => checked(e, x, item_prefix(prefix, i), part),
            None => part.len() == 0,
        }
}

/// Whether `part` is what checking a record's field gives, for a field with the type
/// `ty` and the given name: what checking the field's value gives under its path, if
/// the record has the field, and if not, nothing for an optional field, and one error
/// for a required one.
pub open spec fn field_checked<V: Value>(
    ty: Ty,
    name: Seq<char>,
    optional: bool,
    record: V::Record,
    prefix: Seq<char>,
    part: Seq<V::Error>,
) -> bool
    decreases ty, 1nat,
{
    exists|key: &str, found: Option<V>|
        key@ == name && #[trigger] call_ensures(
            <V::Record as Record<V>>::at,
            (&record, key),
            found,
        ) && match found {
            Some(x) => checked(ty, x, field_prefix(prefix, name), part),
            None => if optional {
                part.len() == 0
            } else {
                one_raised::<V>(required_text(name), part)
            },
        }
}

/// The first parts joined do not depend on what comes after them.
proof fn lemma_joined_push<E>(parts: Seq<Seq<E>>, last: Seq<E>, k: int)
    requires
        0 <= k <= parts.len(),
    ensures
        joined(parts.push(last), k) == joined(parts, k),
        k == parts.len() ==> joined(parts.push(last), k + 1) == joined(parts, k) + last,
    decreases k,
{
    if k > 0 {
        lemma_joined_push(parts, last, k - 1);
        assert(parts.push(last)[k - 1] == parts[k - 1]);
    }
    if k == parts.len() {
        assert(parts.push(last)[k] == last);
    }
}

fn with_suffix(prefix: &String, suffix: &str) -> (text: String)
    ensures
        text@ == prefix@ + suffix@,
{
    let mut text = prefix.clone();
    push_text(&mut text, suffix);
    text
}

/// Adds the error of `outcome`, if it is one, to `errors`, with `prefix` before its
/// text.
pub fn note_outcome<V: Value, T>(
    outcome: Result<T, V::Error>,
    prefix: &String,
    errors: &mut Vec<V::Error>,
)
    ensures
        final(errors)@.len() >= old(errors)@.len(),
        final(errors)@.take(old(errors)@.len() as int) == old(errors)@,
        noted::<V>(
            failure_of(outcome),
            prefix@,
            final(errors)@.skip(old(errors)@.len() as int),
        ),
{
    match outcome {
        Ok(_) => {
            assert(errors@.take(errors@.len() as int) =~= errors@);
        },
        Err(err) => {
            let text = V::error_text(&err);
            let message = with_suffix(prefix, text.as_str());
            let made = V::error_from(message);
            errors.push(made);
            proof {
                let part = errors@.skip(old(errors)@.len() as int);
                assert(errors@.take(old(errors)@.len() as int) =~= old(errors)@);
                assert(part[0] == made);
                assert(message@ == prefix@ + text@ && call_ensures(V::error_from, (message,), made));
                assert(raised::<V>(prefix@ + text@, part[0]));
                assert(call_ensures(V::error_text, (&err,), text) && one_raised::<V>(
                    prefix@ + text@,
                    part,
                ));
                assert(told::<V>(err, prefix@, part));
            }
        },
    }
}

/// Adds the error made of the message `text` to `errors`.
fn note_text<V: Value>(text: String, errors: &mut Vec<V::Error>)
    ensures
        final(errors)@.len() >= old(errors)@.len(),
        final(errors)@.take(old(errors)@.len() as int) == old(errors)@,
        one_raised::<V>(text@, final(errors)@.skip(old(errors)@.len() as int)),
{
    let ghost message = text@;
    let made = V::error_from(text);
    errors.push(made);
    proof {
        let part = errors@.skip(old(errors)@.len() as int);
        assert(errors@.take(old(errors)@.len() as int) =~= old(errors)@);
        assert(part[0] == made);
        assert(text@ == message && call_ensures(V::error_from, (text,), made));
    }
}

impl Type {
    /// Whether the value is of the type. If it is not, the errors say why, one for
    /// each part of the value that does not fit, with the path to the part before the
    /// message.
    ///
    /// Every value is of the types `Any` and of a type variable, and none of `Never`
    /// and `Money`. Whether a value is a number, a string, a boolean, a time, a list, a
    /// record or a block is for the host to say. The elements of a list are checked
    /// against the list's element type, and the fields of a record against the types
    /// of the record's fields; a required field has to be there.
    pub fn satisfied_by_value<V: Value>(&self, value: &V) -> (res: Result<(), Vec<V::Error>>)
        ensures
            always_satisfied(self@) ==> res is Ok,
            unsatisfiable(self@) ==> res is Err,
            match res {
                Ok(()) => checked::<V>(self@, *value, Seq::empty(), Seq::empty()),
                Err(errors) => errors@.len() > 0 && checked::<V>(
                    self@,
                    *value,
                    Seq::empty(),
                    errors@,
                ),
            },
    {
        let mut errors: Vec<V::Error> = Vec::with_capacity(10);
        self.satisfied_by_inner(value, &mut errors, String::new());
        assert(errors@.skip(0) =~= errors@);
        if errors.len() == 0 {
            assert(errors@ =~= Seq::empty());
            Ok(())
        } else {
            Err(errors)
        }
    }

    #[verifier::loop_isolation(false)]
    fn satisfied_by_inner<V: Value>(&self, value: &V, errors: &mut Vec<V::Error>, prefix: String)
        ensures
            final(errors)@.len() >= old(errors)@.len(),
            final(errors)@.take(old(errors)@.len() as int) == old(errors)@,
            checked::<V>(
                self@,
                *value,
                prefix@,
                final(errors)@.skip(old(errors)@.len() as int),
            ),
        decreases self,
    {
        let ghost base = errors@.len() as int;
        match self {
            Type::Any => {
                assert(errors@.take(base) =~= errors@);
            },
            Type::Never => {
                note_text::<V>(with_suffix(&prefix, "unexpected value"), errors);
            },
            Type::Var(_) => {
                assert(errors@.take(base) =~= errors@);
            },
            Type::Num => {
                let got = value.try_number();
                note_outcome::<V, ()>(got, &prefix, errors);
                assert(call_ensures(V::try_number, (value,), got));
            },
            Type::Str => {
                let got = value.try_string();
                note_outcome::<V, &str>(got, &prefix, errors);
                assert(call_ensures(V::try_string, (value,), got));
            },
            Type::Bool => {
                let got = value.try_bool();
                note_outcome::<V, bool>(got, &prefix, errors);
                assert(call_ensures(V::try_bool, (value,), got));
            },
            Type::Time => {
                let got = value.try_time();
                note_outcome::<V, u64>(got, &prefix, errors);
                assert(call_ensures(V::try_time, (value,), got));
            },
            Type::Money => {
                let mut text = String::new();
                push_text(&mut text, "money type is not ready yet");
                note_text::<V>(text, errors);
            },
            Type::List(t) => {
                let got = value.try_list();
                assert(call_ensures(V::try_list, (value,), got));
                match got {
                    Ok(list) => {
                        let n = list.len();
                        assert(call_ensures(<V::List as List<V>>::len, (&list,), n));
                        let ghost mut parts: Seq<Seq<V::Error>> = Seq::empty();
                        assert(errors@.skip(base) =~= Seq::empty());
                        assert(errors@.take(base) =~= old(errors)@);
                        let mut i: usize = 0;
                        while i < n
                            invariant
                                i <= n,
                                errors@.len() >= base,
                                errors@.take(base) == old(errors)@,
                                portions(parts, i as int, errors@.skip(base)),
                                forall|j: int|
                                    #![trigger parts[j]]
                                    0 <= j < i ==> item_checked::<V>(
                                        t@,
                                        list,
                                        prefix@,
                                        j,
                                        parts[j],
                                    ),
                            decreases n - i,
                        {
                            let ghost before = errors@;
                            let ghost sofar = parts;
                            let found = list.at(i);
                            assert(call_ensures(<V::List as List<V>>::at, (&list, i), found));
                            match found {
                                Some(item) => {
                                    let mut inner = with_suffix(&prefix, "item ");
                                    let number = decimal(i as u64);
                                    push_text(&mut inner, number.as_str());
                                    push_text(&mut inner, ": ");
                                    assert(inner@ =~= item_prefix(prefix@, i as int));
                                    t.satisfied_by_inner(&item, errors, inner);
                                },
                                None => {
                                    assert(errors@.take(before.len() as int) =~= before);
                                },
                            }
                            proof {
                                let part = errors@.skip(before.len() as int);
                                parts = sofar.push(part);
                                lemma_joined_push(sofar, part, i as int);
                                assert(errors@.skip(base) =~= before.skip(base) + part) by {
                                    assert(errors@.take(before.len() as int) == before);
                                    assert forall|k: int| 0 <= k < before.len() - base implies errors@.skip(
                                        base,
                                    )[k] == before.skip(base)[k] by {
                                        assert(errors@.take(before.len() as int)[base + k]
                                            == before[base + k]);
                                    }
                                }
                                assert(errors@.take(base) =~= old(errors)@) by {
                                    assert forall|k: int| 0 <= k < base implies errors@[k] == old(
                                        errors,
                                    )@[k] by {
                                        assert(errors@.take(before.len() as int)[k] == before[k]);
                                        assert(before.take(base)[k] == before[k]);
                                    }
                                }
                                assert(item_checked::<V>(t@, list, prefix@, i as int, part));
                                assert forall|j: int| #![trigger parts[j]] 0 <= j < i + 1 implies item_checked::<
                                    V,
                                >(t@, list, prefix@, j, parts[j]) by {
                                    if j < i {
                                        assert(parts[j] == sofar[j]);
                                    } else {
                                        assert(parts[j] == part);
                                    }
                                }
                            }
                            i += 1;
                        }
                        assert(portions(parts, n as int, errors@.skip(base)));
                    },
                    Err(err) => {
                        errors.push(err);
                        assert(errors@.skip(base) =~= seq![err]);
                        assert(errors@.take(base) =~= old(errors)@);
                    },
                }
            },
            Type::Record(partial, fields) => {
                proof {
                    lemma_record_view(*partial, *fields);
                }
                let ghost kinds = super::types::fields_view(fields@);
                assert(self@ == Ty::Record(*partial, kinds));
                let got = value.try_record();
                assert(call_ensures(V::try_record, (value,), got));
                match got {
                    Ok(record) => {
                        let ghost mut parts: Seq<Seq<V::Error>> = Seq::empty();
                        assert(errors@.skip(base) =~= Seq::empty());
                        assert(errors@.take(base) =~= old(errors)@);
                        let mut i: usize = 0;
                        while i < fields.len()
                            invariant
                                i <= fields.len(),
                                kinds == super::types::fields_view(fields@),
                                errors@.len() >= base,
                                errors@.take(base) == old(errors)@,
                                portions(parts, i as int, errors@.skip(base)),
                                forall|j: int|
                                    #![trigger parts[j]]
                                    0 <= j < i ==> field_checked::<V>(
                                        kinds[j].ty,
                                        kinds[j].name,
                                        kinds[j].optional,
                                        record,
                                        prefix@,
                                        parts[j],
                                    ),
                            decreases fields.len() - i,
                        {
                            let ghost before = errors@;
                            let ghost sofar = parts;
                            let name = &fields[i].0;
                            let field = &fields[i].1;
                            let key = name.as_str();
                            let found = record.at(key);
                            assert(key@ == kinds[i as int].name && call_ensures(
                                <V::Record as Record<V>>::at,
                                (&record, key),
                                found,
                            ));
                            match found {
                                Some(val) => {
                                    let mut inner = with_suffix(&prefix, "field `");
                                    push_text(&mut inner, name.as_str());
                                    push_text(&mut inner, "` ");
                                    assert(inner@ =~= field_prefix(prefix@, name@));
                                    field.ty.satisfied_by_inner(&val, errors, inner);
                                },
                                None => {
                                    if !field.optional {
                                        let mut text = String::new();
                                        push_text(&mut text, "field `");
                                        push_text(&mut text, name.as_str());
                                        push_text(&mut text, "` is required");
                                        assert(text@ =~= required_text(name@));
                                        note_text::<V>(text, errors);
                                    } else {
                                        assert(errors@.take(before.len() as int) =~= before);
                                    }
                                },
                            }
                            proof {
                                let part = errors@.skip(before.len() as int);
                                parts = sofar.push(part);
                                lemma_joined_push(sofar, part, i as int);
                                assert(errors@.skip(base) =~= before.skip(base) + part) by {
                                    assert(errors@.take(before.len() as int) == before);
                                    assert forall|k: int| 0 <= k < before.len() - base implies errors@.skip(
                                        base,
                                    )[k] == before.skip(base)[k] by {
                                        assert(errors@.take(before.len() as int)[base + k]
                                            == before[base + k]);
                                    }
                                }
                                assert(errors@.take(base) =~= old(errors)@) by {
                                    assert forall|k: int| 0 <= k < base implies errors@[k] == old(
                                        errors,
                                    )@[k] by {
                                        assert(errors@.take(before.len() as int)[k] == before[k]);
                                        assert(before.take(base)[k] == before[k]);
                                    }
                                }
                                assert(kinds[i as int].ty == field.ty@ && kinds[i as int].optional
                                    == field.optional && kinds[i as int].name == name@);
                                assert(field_checked::<V>(
                                    kinds[i as int].ty,
                                    kinds[i as int].name,
                                    kinds[i as int].optional,
                                    record,
                                    prefix@,
                                    part,
                                ));
                                assert forall|j: int| #![trigger parts[j]] 0 <= j < i + 1 implies field_checked::<
                                    V,
                                >(
                                    kinds[j].ty,
                                    kinds[j].name,
                                    kinds[j].optional,
                                    record,
                                    prefix@,
                                    parts[j],
                                ) by {
                                    if j < i {
                                        assert(parts[j] == sofar[j]);
                                    } else {
                                        assert(parts[j] == part);
                                    }
                                }
                            }
                            i += 1;
                        }
                        assert(portions(parts, kinds.len() as int, errors@.skip(base)));
                        assert(self@ matches Ty::Record(_, listed) && listed == kinds);
                        assert(forall|i: int|
                            #![trigger parts[i]]
                            0 <= i < kinds.len() ==> field_checked::<V>(
                                kinds[i].ty,
                                kinds[i].name,
                                kinds[i].optional,
                                record,
                                prefix@,
                                parts[i],
                            ));
                        assert(checked::<V>(self@, *value, prefix@, errors@.skip(base)));
                    },
                    Err(err) => {
                        errors.push(err);
                        assert(errors@.skip(base) =~= seq![err]);
                        assert(errors@.take(base) =~= old(errors)@);
                    },
                }
            },
            Type::Block(_, _) => {
                let yes = value.callable();
                assert(call_ensures(V::callable, (value,), yes));
                if !yes {
                    let mut text = String::new();
                    push_text(&mut text, "not a block");
                    note_text::<V>(text, errors);
                } else {
                    assert(errors@.take(base) =~= errors@);
                }
            },
        }
    }
}

} // verus!
