//! The virtual machine: runs instructions against a namespace of host functions.
use super::instruction::{instruction_text, Instruction};
use super::value::{Record, Value};
use super::Block;
use crate::apply::Apply;
use crate::arena::ArenaId;
use crate::namespace::Namespace;
use crate::primitive::{Prim, PrimView};
use crate::text::{decimal, decimal_text, push_text};
use crate::with_error::WithError;
use vstd::prelude::*;
use vstd::slice::*;

verus! {

/// Why the machine cannot go on.
#[derive(Debug, Clone, Copy, PartialEq, Eq, Structural)]
pub enum MachineError {
    ValueStackEmpty,
    KeywordStackEmpty,
    Undefined,
}

/// The host of a machine: it carries out the calls of host functions. A call gets
/// the function's symbol, the arguments, and the machine that runs the call, in which
/// it may evaluate the blocks among the arguments. It leaves the machine as it found
/// it.
pub trait Host<V: Value>: Sized {
    fn call<'a>(&self, func: ArenaId, args: Apply<V>, vm: &mut Machine<'a, V, Self>) -> (res:
        Result<V, V::Error>)
        requires
            old(vm).wf(),
        ensures
            final(vm).wf(),
            final(vm)@ == old(vm)@,
    ;
}

/// A host function, as a namespace holds it. It gets the call's arguments and the
/// machine that runs the call, and leaves the machine as it found it.
pub trait Callback<V: Value>: Sized {
    fn call<'a>(&self, args: Apply<V>, vm: &mut Machine<'a, V, Namespace<Self>>) -> (res:
        Result<V, V::Error>)
        requires
            old(vm).wf(),
        ensures
            final(vm).wf(),
            final(vm)@ == old(vm)@,
    ;
}

/// The machine. It owns the value stack, the keyword stack, the bindings and the
/// instruction pointer, and borrows the namespace and the program.
///
/// While a block runs, the part of each stack that was there when the block was
/// called is out of its reach: the stack counts as empty when only that part is left.
#[verifier::reject_recursive_types(V)]
pub struct Machine<'a, V: Value, N> {
    ns: &'a N,
    instructions: &'a [Instruction],
    instruction_pointer: usize,
    program_data: &'a [Prim],
    pub symbols: &'a [String],
    bindings: Vec<(ArenaId, V)>,
    value_stack: Vec<V>,
    keyword_stack: Vec<ArenaId>,
    value_floor: usize,
    keyword_floor: usize,
}

/// The model of a [`Machine`].
pub struct MachineView<V, N> {
    pub host: N,
    pub instructions: Seq<Instruction>,
    pub constants: Seq<PrimView>,
    pub symbols: Seq<Seq<char>>,
    pub ip: int,
    pub values: Seq<V>,
    pub keywords: Seq<ArenaId>,
    pub bindings: Seq<(ArenaId, V)>,
    pub value_floor: int,
    pub keyword_floor: int,
}

impl<'a, V: Value, N> View for Machine<'a, V, N> {
    type V = MachineView<V, N>;

    closed spec fn view(&self) -> MachineView<V, N> {
        MachineView {
            host: *self.ns,
            instructions: self.instructions@,
            constants: Seq::new(self.program_data@.len(), |i: int| self.program_data@[i]@),
            symbols: Seq::new(self.symbols@.len(), |i: int| self.symbols@[i]@),
            ip: self.instruction_pointer as int,
            values: self.value_stack@,
            keywords: self.keyword_stack@,
            bindings: self.bindings@,
            value_floor: self.value_floor as int,
            keyword_floor: self.keyword_floor as int,
        }
    }
}

/// The position of the newest binding of `id` below position `i`.
pub open spec fn newest_binding<V>(bindings: Seq<(ArenaId, V)>, id: ArenaId, i: int) -> Option<int>
    decreases i,
{
    if i <= 0 || i > bindings.len() {
        None
    } else if bindings[i - 1].0 == id {
        Some(i - 1)
    } else {
        newest_binding(bindings, id, i - 1)
    }
}

/// Whether `v` is a value that the host makes of the constant.
pub open spec fn boxed<V: Value>(p: PrimView, v: V) -> bool {
    match p {
        PrimView::Boolean(b) => call_ensures(V::from_bool, (b,), v),
        PrimView::Number(text) => exists|s: &str|
            s@ == text && #[trigger] call_ensures(V::from_number, (s,), v),
        PrimView::String(text) => exists|s: String|
            s@ == text && #[trigger] call_ensures(V::from_string, (s,), v),
        PrimView::Time(t) => call_ensures(V::from_time, (t,), v),
        PrimView::Money(_, _) => false,
    }
}

/// The state with the instruction pointer one further.
pub open spec fn advanced<V, N>(m: MachineView<V, N>) -> MachineView<V, N> {
    MachineView { ip: m.ip + 1, ..m }
}

/// The state with `v` pushed onto the value stack.
pub open spec fn pushed<V, N>(m: MachineView<V, N>, v: V) -> MachineView<V, N> {
    MachineView { values: m.values.push(v), ..m }
}

/// The state with the top `n` values taken off.
pub open spec fn dropped<V, N>(m: MachineView<V, N>, n: int) -> MachineView<V, N> {
    MachineView { values: m.values.take(m.values.len() - n), ..m }
}

/// The state with the top `n` keywords taken off.
pub open spec fn dropped_keywords<V, N>(m: MachineView<V, N>, n: int) -> MachineView<V, N> {
    MachineView { keywords: m.keywords.take(m.keywords.len() - n), ..m }
}

/// Whether the machine is in a state in which the instruction at the pointer cannot
/// be carried out, whatever the host does.
pub open spec fn stuck<V: Value, N>(m: MachineView<V, N>) -> bool {
    if !(0 <= m.ip < m.instructions.len()) {
        true
    } else {
        match m.instructions[m.ip] {
            Instruction::PushPrimitive { id } => id >= m.constants.len()
                || m.constants[id as int] is Money,
            Instruction::PushVar { id } => newest_binding(m.bindings, id, m.bindings.len() as int)
                is None,
            Instruction::PushProp { id } => m.values.len() <= m.value_floor || id
                >= m.symbols.len(),
            Instruction::PushKeyword { id } => false,
            Instruction::MkList { size } => m.values.len() - m.value_floor < size,
            Instruction::MkRecord { size } => m.values.len() - m.value_floor < size
                || m.keywords.len() - m.keyword_floor < size || exists|k: int|
                m.keywords.len() - size <= k < m.keywords.len() && #[trigger] m.keywords[k]
                    >= m.symbols.len(),
            Instruction::MkBlock { argc, skip } => m.ip + skip + 1 > u32::MAX,
            Instruction::Bind { id } => m.values.len() <= m.value_floor,
            Instruction::CallFunction { argc } => argc == 0 || m.values.len() - m.value_floor
                < argc || m.keywords.len() - m.keyword_floor < argc,
        }
    }
}

/// The kind of error that the machine gives in a state in which it is stuck.
pub open spec fn stuck_error<V: Value, N>(m: MachineView<V, N>) -> MachineError {
    if !(0 <= m.ip < m.instructions.len()) {
        MachineError::Undefined
    } else {
        match m.instructions[m.ip] {
            Instruction::PushProp { id } => MachineError::ValueStackEmpty,
            Instruction::MkList { size } => MachineError::ValueStackEmpty,
            Instruction::MkRecord { size } => if m.values.len() - m.value_floor < size
                || m.keywords.len() - m.keyword_floor < size {
                MachineError::KeywordStackEmpty
            } else {
                MachineError::Undefined
            },
            Instruction::Bind { id } => MachineError::ValueStackEmpty,
            Instruction::CallFunction { argc } => if argc == 0 || m.keywords.len()
                - m.keyword_floor < argc {
                MachineError::KeywordStackEmpty
            } else {
                MachineError::ValueStackEmpty
            },
            _ => MachineError::Undefined,
        }
    }
}

/// Whether the host alone decides if the instruction at the pointer succeeds.
pub open spec fn host_decides<V: Value, N>(m: MachineView<V, N>) -> bool {
    0 <= m.ip < m.instructions.len() && (m.instructions[m.ip] is PushProp
        || m.instructions[m.ip] is CallFunction)
}

/// The arguments of a call with `argc` arguments in the state `m`: the top keywords,
/// each with the value that was pushed with it, in the order in which they were pushed.
pub open spec fn call_pairs<V, N>(m: MachineView<V, N>, argc: int) -> Seq<(ArenaId, V)> {
    Seq::new(
        argc as nat,
        |i: int| (m.keywords[m.keywords.len() - argc + i], m.values[m.values.len() - argc + i]),
    )
}

/// The state after the `argc` arguments of a call were taken off both stacks.
pub open spec fn called<V, N>(m: MachineView<V, N>, argc: int) -> MachineView<V, N> {
    dropped_keywords(dropped(m, argc), argc)
}

/// Whether `got` is what the host gives for the call of `argc` arguments in the state
/// `m`: the machine's host is called once, for the function that the first keyword
/// names, with the arguments of the call, and with the machine as it is when the
/// arguments are off the stacks.
pub open spec fn host_gave<'a, V: Value, N: Host<V>>(
    m: MachineView<V, N>,
    argc: int,
    got: Result<V, V::Error>,
) -> bool {
    exists|vm: &mut Machine<'a, V, N>, apply: Apply<V>|
        vm@ == called(m, argc) && apply@ == call_pairs(m, argc) && #[trigger] call_ensures(
            N::call,
            (&m.host, apply@[0].0, apply, vm),
            got,
        )
}

/// Whether `found` is what the top value gives for its field named by the symbol
/// `id`: the value's own error if it is no record, and else what the record has
/// under that name.
pub open spec fn field_found<V: Value, N>(
    m: MachineView<V, N>,
    id: ArenaId,
    found: Result<Option<V>, V::Error>,
) -> bool {
    exists|record: Result<V::Record, V::Error>| #[trigger]
        call_ensures(V::try_record, (&m.values.last(),), record) && match record {
            Ok(r) => found matches Ok(field) && exists|name: &str|
                name@ == m.symbols[id as int] && #[trigger] call_ensures(
                    <V::Record as Record<V>>::at,
                    (&r, name),
                    field,
                ),
            Err(e) => found == Err::<Option<V>, V::Error>(e),
        }
}

/// The fields of the record that `size` keywords and values on top of the stacks
/// describe: the name of each keyword with the value that was pushed with it, in the
/// order in which they were pushed.
pub open spec fn record_fields<V, N>(m: MachineView<V, N>, size: int) -> Seq<(Seq<char>, V)> {
    Seq::new(
        size as nat,
        |i: int|
            (
                m.symbols[m.keywords[m.keywords.len() - size + i] as int],
                m.values[m.values.len() - size + i],
            ),
    )
}

/// The names and values of fields.
pub open spec fn fields_view<V>(fields: Seq<(String, V)>) -> Seq<(Seq<char>, V)> {
    Seq::new(fields.len(), |i: int| (fields[i].0@, fields[i].1))
}

/// The state that a failed step leaves: the state before it, but for a failure of
/// the host, where what was handed to the host is off the stacks.
pub open spec fn failed<V: Value, N>(m: MachineView<V, N>) -> MachineView<V, N> {
    if stuck(m) {
        m
    } else {
        match m.instructions[m.ip] {
            Instruction::PushProp { id } => dropped(m, 1),
            Instruction::CallFunction { argc } => called(m, argc as int),
            _ => m,
        }
    }
}

/// Whether `post` is a state that one step from `pre` leads to.
pub open spec fn stepped<V: Value, N: Host<V>>(pre: MachineView<V, N>, post: MachineView<V, N>) -> bool {
    &&& 0 <= pre.ip < pre.instructions.len()
    &&& match pre.instructions[pre.ip] {
        Instruction::PushPrimitive { id } => id < pre.constants.len() && exists|v: V|
            boxed(pre.constants[id as int], v) && post == #[trigger] advanced(pushed(pre, v)),
        Instruction::PushVar { id } => newest_binding(pre.bindings, id, pre.bindings.len() as int)
            matches Some(k) && exists|v: V|
            call_ensures(V::clone, (&pre.bindings[k].1,), v) && post == #[trigger] advanced(
                pushed(pre, v),
            ),
        Instruction::PushProp { id } => pre.values.len() > pre.value_floor && id
            < pre.symbols.len() && exists|v: V|
            field_found(pre, id, Ok(Some(v))) && post == #[trigger] advanced(
                pushed(dropped(pre, 1), v),
            ),
        Instruction::PushKeyword { id } => post == advanced(
            MachineView { keywords: pre.keywords.push(id), ..pre },
        ),
        Instruction::MkList { size } => pre.values.len() - pre.value_floor >= size
            && exists|v: V, items: Vec<V>|
            items@ == pre.values.skip(pre.values.len() - size) && #[trigger] call_ensures(
                V::from_list,
                (items,),
                v,
            ) && post == advanced(pushed(dropped(pre, size as int), v)),
        Instruction::MkRecord { size } => pre.values.len() - pre.value_floor >= size
            && pre.keywords.len() - pre.keyword_floor >= size && exists|
            v: V,
            fields: Vec<(String, V)>,
        |
            fields_view(fields@) == record_fields(pre, size as int) && #[trigger] call_ensures(
                V::from_record,
                (fields,),
                v,
            ) && post == advanced(pushed(called(pre, size as int), v)),
        Instruction::MkBlock { argc, skip } => pre.ip + skip + 1 <= u32::MAX && exists|v: V|
            call_ensures(
                V::from_block,
                (Block { ip: (pre.ip + 1) as u32, size: skip, argc },),
                v,
            ) && post == #[trigger] pushed(MachineView { ip: pre.ip + skip + 1, ..pre }, v),
        Instruction::Bind { id } => pre.values.len() > pre.value_floor && post == advanced(
            MachineView {
                bindings: pre.bindings.push((id, pre.values.last())),
                ..dropped(pre, 1)
            },
        ),
        Instruction::CallFunction { argc } => argc > 0 && pre.values.len() - pre.value_floor
            >= argc && pre.keywords.len() - pre.keyword_floor >= argc && exists|v: V|
            host_gave(pre, argc as int, Ok(v)) && post == #[trigger] advanced(
                pushed(called(pre, argc as int), v),
            ),
    }
}

/// The name of a machine error.
pub open spec fn machine_error_name(err: MachineError) -> Seq<char> {
    match err {
        MachineError::ValueStackEmpty => "ValueStackEmpty"@,
        MachineError::KeywordStackEmpty => "KeywordStackEmpty"@,
        MachineError::Undefined => "Undefined"@,
    }
}

/// The text of a machine error: the error's name, ` @ instruction `, the instruction
/// pointer, and, if an instruction is there, a blank and the instruction.
pub open spec fn machine_error_text(err: MachineError, ip: usize, instruction: Option<Instruction>) -> Seq<
    char,
> {
    let head = machine_error_name(err) + " @ instruction "@ + decimal_text(ip as u64);
    match instruction {
        Some(i) => head + " "@ + instruction_text(i),
        None => head,
    }
}

/// The text of a machine error in the state `m`.
pub open spec fn error_text_at<V, N>(m: MachineView<V, N>, err: MachineError) -> Seq<char> {
    machine_error_text(
        err,
        m.ip as usize,
        if 0 <= m.ip < m.instructions.len() {
            Some(m.instructions[m.ip])
        } else {
            None
        },
    )
}

fn describe(err: MachineError, ip: usize, instruction: Option<Instruction>) -> (text: String)
    ensures
        text@ == machine_error_text(err, ip, instruction),
{
    let mut text = String::new();
    push_text(
        &mut text,
        match err {
            MachineError::ValueStackEmpty => "ValueStackEmpty",
            MachineError::KeywordStackEmpty => "KeywordStackEmpty",
            MachineError::Undefined => "Undefined",
        },
    );
    push_text(&mut text, " @ instruction ");
    let number = decimal(ip as u64);
    push_text(&mut text, number.as_str());
    match instruction {
        Some(i) => {
            push_text(&mut text, " ");
            let shown = i.to_text();
            push_text(&mut text, shown.as_str());
        },
        None => {},
    }
    assert(text@ =~= machine_error_text(err, ip, instruction));
    text
}

impl<'a, V: Value, N> Machine<'a, V, N> {
    /// Whether the machine's stacks reach down to what the running block may not touch.
    pub closed spec fn wf(&self) -> bool {
        &&& self.value_floor <= self.value_stack@.len()
        &&& self.keyword_floor <= self.keyword_stack@.len()
    }

    /// The name of the symbol with the given id, if the program has that symbol.
    pub fn symbol(&self, id: ArenaId) -> (name: Option<&String>)
        ensures
            match name {
                Some(n) => (id as int) < self@.symbols.len() && n@ == self@.symbols[id as int],
                None => (id as int) >= self@.symbols.len(),
            },
    {
        if (id as usize) < self.symbols.len() {
            Some(&self.symbols[id as usize])
        } else {
            None
        }
    }
}

impl<'a, V: Value, N: Host<V>> Machine<'a, V, N> {
    /// A machine for the program, at its first instruction, with empty stacks and
    /// the given bindings.
    pub fn new(
        ns: &'a N,
        instructions: &'a [Instruction],
        program_data: &'a [Prim],
        symbols: &'a [String],
        bindings: Vec<(ArenaId, V)>,
    ) -> (m: Self)
        ensures
            m.wf(),
            m@.host == *ns,
            m@.instructions == instructions@,
            m@.ip == 0,
            m@.values == Seq::<V>::empty(),
            m@.keywords == Seq::<ArenaId>::empty(),
            m@.bindings == bindings@,
            m@.value_floor == 0,
            m@.keyword_floor == 0,
            m@.constants.len() == program_data@.len(),
            forall|i: int|
                0 <= i < program_data@.len() ==> m@.constants[i] == (#[trigger] program_data@[i])@,
            m@.symbols.len() == symbols@.len(),
            forall|i: int| 0 <= i < symbols@.len() ==> m@.symbols[i] == (#[trigger] symbols@[i])@,
    {
        Machine {
            ns,
            instructions,
            instruction_pointer: 0,
            program_data,
            symbols,
            bindings,
            value_stack: Vec::with_capacity(128),
            keyword_stack: Vec::with_capacity(32),
            value_floor: 0,
            keyword_floor: 0,
        }
    }

    /// The error that the value type makes of the text of a machine error here: at
    /// the instruction pointer, with the instruction there if there is one.
    fn error(&self, err: MachineError) -> (e: V::Error)
        ensures
            raised::<V>(error_text_at(self@, err), e),
    {
        let instruction = if self.instruction_pointer < self.instructions.len() {
            Some(self.instructions[self.instruction_pointer])
        } else {
            None
        };
        let message = describe(err, self.instruction_pointer, instruction);
        let e = V::error_from(message);
        assert(message@ == error_text_at(self@, err) && call_ensures(V::error_from, (message,), e));
        e
    }

    fn pop_value(&mut self) -> (res: Result<V, V::Error>)
        requires
            old(self).wf(),
        ensures
            final(self).wf(),
            match res {
                Ok(v) => old(self)@.values.len() > old(self)@.value_floor && v == old(self)@.values.last() && final(self)@ == dropped(old(self)@, 1),
                Err(e) => old(self)@.values.len() <= old(self)@.value_floor && final(self)@
                    == old(self)@ && raised::<V>(
                    error_text_at(old(self)@, MachineError::ValueStackEmpty),
                    e,
                ),
            },
    {
        if self.value_stack.len() <= self.value_floor {
            return Err(self.error(MachineError::ValueStackEmpty));
        }
        match self.value_stack.pop() {
            Some(v) => {
                assert(self@.values =~= old(self)@.values.take(old(self)@.values.len() - 1));
                Ok(v)
            },
            None => Err(self.error(MachineError::ValueStackEmpty)),
        }
    }

    fn pop_values(&mut self, count: u16) -> (res: Result<Vec<V>, V::Error>)
        requires
            old(self).wf(),
        ensures
            final(self).wf(),
            match res {
                Ok(values) => old(self)@.values.len() - old(self)@.value_floor >= count
                    && values@ == old(self)@.values.skip(old(self)@.values.len() - count)
                    && final(self)@ == dropped(old(self)@, count as int),
                Err(e) => old(self)@.values.len() - old(self)@.value_floor < count && final(self)@
                    == old(self)@ && raised::<V>(
                    error_text_at(old(self)@, MachineError::ValueStackEmpty),
                    e,
                ),
            },
    {
        let top = self.value_stack.len();
        if (count as usize) > top - self.value_floor {
            return Err(self.error(MachineError::ValueStackEmpty));
        }
        let values = self.value_stack.split_off(top - count as usize);
        assert(self@.values =~= old(self)@.values.take(old(self)@.values.len() - count));
        assert(values@ =~= old(self)@.values.skip(old(self)@.values.len() - count));
        Ok(values)
    }

    fn pop_keywords(&mut self, count: u16) -> (res: Result<Vec<ArenaId>, V::Error>)
        requires
            old(self).wf(),
        ensures
            final(self).wf(),
            match res {
                Ok(keywords) => old(self)@.keywords.len() - old(self)@.keyword_floor >= count
                    && keywords@ == old(self)@.keywords.skip(old(self)@.keywords.len() - count)
                    && final(self)@ == dropped_keywords(old(self)@, count as int),
                Err(e) => old(self)@.keywords.len() - old(self)@.keyword_floor < count
                    && final(self)@ == old(self)@ && raised::<V>(
                    error_text_at(old(self)@, MachineError::KeywordStackEmpty),
                    e,
                ),
            },
    {
        let top = self.keyword_stack.len();
        if (count as usize) > top - self.keyword_floor {
            return Err(self.error(MachineError::KeywordStackEmpty));
        }
        let keywords = self.keyword_stack.split_off(top - count as usize);
        assert(self@.keywords =~= old(self)@.keywords.take(old(self)@.keywords.len() - count));
        assert(keywords@ =~= old(self)@.keywords.skip(old(self)@.keywords.len() - count));
        Ok(keywords)
    }

    /// Takes the top `count` keywords and the top `count` values off the stacks, and
    /// pairs them in the order in which they were pushed.
    fn pop_pairs(&mut self, count: u16) -> (res: Result<Vec<(ArenaId, V)>, V::Error>)
        requires
            old(self).wf(),
        ensures
            final(self).wf(),
            match res {
                Ok(pairs) => {
                    &&& old(self)@.keywords.len() - old(self)@.keyword_floor >= count
                    &&& old(self)@.values.len() - old(self)@.value_floor >= count
                    &&& pairs@.len() == count
                    &&& forall|i: int|
                        0 <= i < count ==> #[trigger] pairs@[i] == (
                            old(self)@.keywords[old(self)@.keywords.len() - count + i],
                            old(self)@.values[old(self)@.values.len() - count + i],
                        )
                    &&& final(self)@ == dropped_keywords(
                        dropped(old(self)@, count as int),
                        count as int,
                    )
                },
                Err(e) => final(self)@ == old(self)@ && if old(self)@.keywords.len() - old(
                    self,
                )@.keyword_floor < count {
                    raised::<V>(error_text_at(old(self)@, MachineError::KeywordStackEmpty), e)
                } else {
                    old(self)@.values.len() - old(self)@.value_floor < count && raised::<V>(
                        error_text_at(old(self)@, MachineError::ValueStackEmpty),
                        e,
                    )
                },
            },
    {
        if (count as usize) > self.keyword_stack.len() - self.keyword_floor {
            return Err(self.error(MachineError::KeywordStackEmpty));
        }
        let mut values = match self.pop_values(count) {
            Ok(values) => values,
            Err(e) => {
                return Err(e);
            },
        };
        let keywords = match self.pop_keywords(count) {
            Ok(keywords) => keywords,
            Err(e) => {
                return Err(e);
            },
        };
        let ghost all = values@;
        let mut pairs: Vec<(ArenaId, V)> = Vec::with_capacity(count as usize);
        let mut i: usize = count as usize;
        while i > 0
            invariant
                i <= count,
                keywords@.len() == count,
                all.len() == count,
                values@ == all.take(i as int),
                pairs@.len() == count - i,
                forall|j: int|
                    0 <= j < pairs@.len() ==> #[trigger] pairs@[j] == (
                        keywords@[count - 1 - j],
                        all[count - 1 - j],
                    ),
            decreases i,
        {
            match values.pop() {
                Some(v) => {
                    pairs.push((keywords[i - 1], v));
                    assert(values@ =~= all.take(i - 1));
                },
                None => {},
            }
            i -= 1;
        }
        let mut ordered: Vec<(ArenaId, V)> = Vec::with_capacity(count as usize);
        let ghost backwards = pairs@;
        while pairs.len() > 0
            invariant
                backwards.len() == count,
                pairs@ == backwards.take(pairs@.len() as int),
                ordered@.len() == count - pairs@.len(),
                forall|j: int|
                    0 <= j < ordered@.len() ==> #[trigger] ordered@[j] == backwards[count - 1 - j],
            decreases pairs@.len(),
        {
            let ghost n = pairs@.len();
            match pairs.pop() {
                Some(p) => {
                    ordered.push(p);
                    assert(pairs@ =~= backwards.take(n - 1));
                },
                None => {},
            }
        }
        Ok(ordered)
    }

    fn box_prim(&self, prim: &Prim) -> (res: Result<V, V::Error>)
        ensures
            match res {
                Ok(v) => boxed(prim@, v),
                Err(e) => prim@ is Money && raised::<V>(
                    error_text_at(self@, MachineError::Undefined),
                    e,
                ),
            },
    {
        match prim {
            Prim::Number(text) => {
                let literal: &str = text.as_str();
                let v = V::from_number(literal);
                assert(literal@ == text@ && call_ensures(V::from_number, (literal,), v));
                Ok(v)
            },
            Prim::String(s) => {
                let copy = s.clone();
                let ghost witness = copy;
                let v = V::from_string(copy);
                assert(witness@ == s@ && call_ensures(V::from_string, (witness,), v));
                Ok(v)
            },
            Prim::Boolean(b) => Ok(V::from_bool(*b)),
            Prim::Time(t) => Ok(V::from_time(*t)),
            Prim::Money(_, _) => Err(self.error(MachineError::Undefined)),
        }
    }

    fn find_binding(&self, id: ArenaId) -> (found: Option<usize>)
        ensures
            match found {
                Some(k) => newest_binding(self@.bindings, id, self@.bindings.len() as int)
                    == Some(k as int) && k < self@.bindings.len(),
                None => newest_binding(self@.bindings, id, self@.bindings.len() as int) is None,
            },
    {
        let mut i: usize = self.bindings.len();
        while i > 0
            invariant
                i <= self.bindings.len(),
                newest_binding(self@.bindings, id, i as int) == newest_binding(
                    self@.bindings,
                    id,
                    self@.bindings.len() as int,
                ),
            decreases i,
        {
            if self.bindings[i - 1].0 == id {
                return Some(i - 1);
            }
            i -= 1;
        }
        None
    }

    /// Carries out the instruction at the instruction pointer.
    ///
    /// It fails in a stuck state, and succeeds in any other unless the host decides
    /// otherwise. A failure leaves the lower parts of the stacks, the bindings and the
    /// program as they were.
    #[verifier::loop_isolation(false)]
    pub fn step(&mut self) -> (res: Result<(), V::Error>)
        requires
            old(self).wf(),
        ensures
            final(self).wf(),
            stuck(old(self)@) ==> res is Err,
            !stuck(old(self)@) && !host_decides(old(self)@) ==> res is Ok,
            res matches Err(e) ==> fails_with(old(self)@, e),
            res is Err ==> final(self)@ == failed(old(self)@),
            res is Ok ==> stepped(old(self)@, final(self)@),
            res is Ok ==> final(self)@.ip > old(self)@.ip,
            kept(old(self)@, final(self)@),
    {
        if self.instruction_pointer >= self.instructions.len() {
            return Err(self.error(MachineError::Undefined));
        }
        let ghost pre = self@;
        match self.instructions[self.instruction_pointer] {
            Instruction::PushPrimitive { id } => {
                if (id as usize) >= self.program_data.len() {
                    return Err(self.error(MachineError::Undefined));
                }
                let v = match self.box_prim(&self.program_data[id as usize]) {
                    Ok(v) => v,
                    Err(e) => {
                        return Err(e);
                    },
                };
                self.value_stack.push(v);
                self.instruction_pointer += 1;
                assert(self@ == advanced(pushed(pre, v)));
            },
            Instruction::PushVar { id } => {
                let k = match self.find_binding(id) {
                    Some(k) => k,
                    None => {
                        return Err(self.error(MachineError::Undefined));
                    },
                };
                let v = self.bindings[k].1.clone();
                self.value_stack.push(v);
                self.instruction_pointer += 1;
                assert(call_ensures(V::clone, (&pre.bindings[k as int].1,), v) && self@
                    == advanced(pushed(pre, v)));
            },
            Instruction::PushProp { id } => {
                if self.value_stack.len() <= self.value_floor || (id as usize)
                    >= self.symbols.len() {
                    return Err(self.error(MachineError::ValueStackEmpty));
                }
                let top = self.pop_value()?;
                assert(self.symbols@.len() == self@.symbols.len());
                let got = top.try_record();
                let record = match got {
                    Ok(record) => record,
                    Err(e) => {
                        assert(call_ensures(V::try_record, (&pre.values.last(),), got));
                        assert(field_found(pre, id, Err::<Option<V>, V::Error>(e)));
                        return Err(e);
                    },
                };
                let name = self.symbols[id as usize].as_str();
                let found = record.at(name);
                assert(name@ == pre.symbols[id as int] && call_ensures(
                    <V::Record as Record<V>>::at,
                    (&record, name),
                    found,
                ));
                assert(call_ensures(V::try_record, (&pre.values.last(),), got));
                assert(field_found(pre, id, Ok::<Option<V>, V::Error>(found)));
                let v = match found {
                    Some(v) => v,
                    None => {
                        return Err(self.error(MachineError::Undefined));
                    },
                };
                self.value_stack.push(v);
                self.instruction_pointer += 1;
                assert(field_found(pre, id, Ok::<Option<V>, V::Error>(Some(v))) && self@
                    == advanced(pushed(dropped(pre, 1), v)));
            },
            Instruction::PushKeyword { id } => {
                self.keyword_stack.push(id);
                self.instruction_pointer += 1;
            },
            Instruction::MkList { size } => {
                let items = self.pop_values(size)?;
                let ghost witness = items;
                let v = V::from_list(items);
                self.value_stack.push(v);
                self.instruction_pointer += 1;
                assert(witness@ == pre.values.skip(pre.values.len() - size) && call_ensures(
                    V::from_list,
                    (witness,),
                    v,
                ) && self@ == advanced(pushed(dropped(pre, size as int), v)));
            },
            Instruction::MkRecord { size } => {
                if (size as usize) > self.keyword_stack.len() - self.keyword_floor || (
                size as usize) > self.value_stack.len() - self.value_floor {
                    return Err(self.error(MachineError::KeywordStackEmpty));
                }
                let top = self.keyword_stack.len();
                let mut k: usize = top - size as usize;
                assert(self.symbols@.len() == self@.symbols.len());
                while k < top
                    invariant
                        top - size <= k <= top,
                        self.wf(),
                        top == self.keyword_stack@.len(),
                        self@ == pre,
                        forall|j: int|
                            0 <= j && top - size <= j < k ==> pre.keywords[j] < pre.symbols.len(),
                    decreases top - k,
                {
                    if (self.keyword_stack[k] as usize) >= self.symbols.len() {
                        assert(pre.keywords[k as int] >= pre.symbols.len());
                        return Err(self.error(MachineError::Undefined));
                    }
                    k += 1;
                }
                let pairs = self.pop_pairs(size)?;
                assert(self.symbols@.len() == self@.symbols.len());
                let mut fields: Vec<(String, V)> = Vec::with_capacity(pairs.len());
                let mut pairs = pairs;
                let ghost all = pairs@;
                let ghost wanted = record_fields(pre, size as int);
                let mut i: usize = 0;
                let n = pairs.len();
                while i < n
                    invariant
                        i <= n,
                        n == size,
                        all.len() == n,
                        pairs@ == all.skip(i as int),
                        forall|j: int|
                            0 <= j < n ==> #[trigger] all[j] == (
                                pre.keywords[pre.keywords.len() - size + j],
                                pre.values[pre.values.len() - size + j],
                            ) && all[j].0 < self.symbols@.len(),
                        wanted == record_fields(pre, size as int),
                        fields@.len() == i,
                        forall|j: int|
                            0 <= j < i ==> (#[trigger] fields@[j]).0@ == wanted[j].0 && fields@[j].1
                                == wanted[j].1,
                    decreases n - i,
                {
                    assert(pairs@[0] == all[i as int]);
                    let (sym, v) = pairs.remove(0);
                    assert(pairs@ =~= all.skip(i + 1));
                    let name = self.symbols[sym as usize].clone();
                    assert(name@ == pre.symbols[sym as int]);
                    fields.push((name, v));
                    i += 1;
                }
                let ghost witness = fields;
                let v = V::from_record(fields);
                self.value_stack.push(v);
                self.instruction_pointer += 1;
                assert(fields_view(witness@) =~= wanted);
                assert(fields_view(witness@) == record_fields(pre, size as int) && call_ensures(
                    V::from_record,
                    (witness,),
                    v,
                ) && self@ == advanced(pushed(called(pre, size as int), v)));
            },
            Instruction::MkBlock { argc, skip } => {
                if self.instruction_pointer > u32::MAX as usize - skip as usize - 1 {
                    return Err(self.error(MachineError::Undefined));
                }
                let block = Block { ip: (self.instruction_pointer + 1) as u32, argc, size: skip };
                let v = V::from_block(block);
                self.value_stack.push(v);
                self.instruction_pointer = self.instruction_pointer + skip as usize + 1;
                assert(call_ensures(
                    V::from_block,
                    (Block { ip: (pre.ip + 1) as u32, size: skip, argc },),
                    v,
                ) && self@ == pushed(MachineView { ip: pre.ip + skip + 1, ..pre }, v));
            },
            Instruction::Bind { id } => {
                let v = self.pop_value()?;
                self.bindings.push((id, v));
                self.instruction_pointer += 1;
            },
            Instruction::CallFunction { argc } => {
                if argc == 0 {
                    return Err(self.error(MachineError::KeywordStackEmpty));
                }
                let pairs = self.pop_pairs(argc)?;
                assert(pairs@ =~= call_pairs(pre, argc as int));
                let apply = Apply::from_pairs(pairs);
                let func_id = *apply.func_id();
                let ns = self.ns;
                let got = ns.call(func_id, apply, self);
                assert(host_gave(pre, argc as int, got));
                let v = match got {
                    Ok(v) => v,
                    Err(e) => {
                        return Err(e);
                    },
                };
                self.value_stack.push(v);
                self.instruction_pointer += 1;
                assert(host_gave(pre, argc as int, Ok::<V, V::Error>(v)) && self@ == advanced(
                    pushed(called(pre, argc as int), v),
                ));
            },
        }
        Ok(())
    }

    /// Carries out the instructions from `start` up to `start + count`, and puts the
    /// instruction pointer back where it was.
    #[verifier::loop_isolation(false)]
    fn eval_range(&mut self, start: usize, count: usize) -> (res: Result<(), V::Error>)
        requires
            old(self).wf(),
        ensures
            final(self).wf(),
            kept(old(self)@, final(self)@),
            final(self)@.ip == old(self)@.ip,
            exists|trace: Seq<MachineView<V, N>>| #[trigger]
                range_outcome(old(self)@, start, count, final(self)@, res, trace),
    {
        let old_ip = self.instruction_pointer;
        self.instruction_pointer = start;
        let end = if count <= usize::MAX - start {
            start + count
        } else {
            usize::MAX
        };
        let ghost mut trace: Seq<MachineView<V, N>> = seq![self@];
        while self.instruction_pointer < end
            invariant
                self.wf(),
                kept(old(self)@, self@),
                end == range_end(start, count),
                is_run(trace, at(old(self)@, start as int), end as int),
                trace.last() == self@,
            decreases
                    (if self.instruction_pointer < end {
                        end - self.instruction_pointer
                    } else {
                        0
                    }),
        {
            let ghost before = self@.ip;
            assert(before == self.instruction_pointer);
            let ghost here = self@;
            match self.step() {
                Ok(()) => {
                    assert(self@.ip == self.instruction_pointer);
                    assert(self.instruction_pointer > before);
                    proof {
                        let longer = trace.push(self@);
                        assert forall|i: int| 0 <= i < longer.len() - 1 implies (
                        #[trigger] longer[i]).ip < end && stepped(longer[i], longer[i + 1]) by {
                            if i < trace.len() - 1 {
                                assert(longer[i] == trace[i]);
                                assert(longer[i + 1] == trace[i + 1]);
                            } else {
                                assert(longer[i] == here);
                                assert(longer[i + 1] == self@);
                            }
                        }
                        trace = longer;
                    }
                },
                Err(e) => {
                    self.instruction_pointer = old_ip;
                    let failed: Result<(), V::Error> = Err(e);
                    assert(failed matches Err(made) ==> made == e);
                    assert(range_outcome(old(self)@, start, count, self@, failed, trace));
                    return failed;
                },
            }
        }
        let ghost stop = self@;
        self.instruction_pointer = old_ip;
        assert(self@ == at(stop, old(self)@.ip));
        let done: Result<(), V::Error> = Ok(());
        assert(range_outcome(old(self)@, start, count, self@, done, trace));
        done
    }

    /// Calls the value, if it is a block, with the given arguments.
    pub fn try_call(&mut self, value: &V, args: Vec<V>) -> (res: Result<V, V::Error>)
        requires
            old(self).wf(),
        ensures
            final(self).wf(),
            final(self)@ == old(self)@,
            exists|block: Result<Block, V::Error>| #[trigger]
                call_ensures(V::try_block, (value,), block) && call_outcome(
                    old(self)@,
                    block,
                    args@,
                    res,
                ),
    {
        let block = value.try_block();
        let res = match block {
            Ok(b) => self.eval_block(&b, args),
            Err(e) => Err(e),
        };
        assert(call_ensures(V::try_block, (value,), block) && call_outcome(
            old(self)@,
            block,
            args@,
            res,
        ));
        res
    }

    /// Calls a block with the given arguments: runs its instructions with the
    /// arguments on the value stack, and takes the result from the stack.
    ///
    /// The machine is the same afterwards as before, whether the call succeeds or
    /// fails: the stacks, the bindings and the instruction pointer are put back.
    pub fn eval_block(&mut self, block: &Block, args: Vec<V>) -> (res: Result<V, V::Error>)
        requires
            old(self).wf(),
        ensures
            final(self).wf(),
            final(self)@ == old(self)@,
            block_outcome(old(self)@, *block, args@, res),
    {
        self.eval_frame(block.ip as usize, block.size as usize, args)
    }

    /// Runs the instructions from `start` up to `start + count` with `args` on the
    /// value stack and the rest of the stacks out of reach, takes the result from the
    /// stack, and puts the machine back as it was.
    fn eval_frame(&mut self, start: usize, count: usize, args: Vec<V>) -> (res: Result<
        V,
        V::Error,
    >)
        requires
            old(self).wf(),
        ensures
            final(self).wf(),
            final(self)@ == old(self)@,
            exists|trace: Seq<MachineView<V, N>>| #[trigger]
                frame_outcome(old(self)@, start, count, args@, res, trace),
    {
        let ghost given = args@;
        let orig_value_stack_size = self.value_stack.len();
        let orig_keyword_stack_size = self.keyword_stack.len();
        let orig_bindings_size = self.bindings.len();
        let orig_value_floor = self.value_floor;
        let orig_keyword_floor = self.keyword_floor;
        let orig_ip = self.instruction_pointer;

        self.value_floor = orig_value_stack_size;
        self.keyword_floor = orig_keyword_stack_size;
        let mut args = args;
        self.value_stack.append(&mut args);
        let ghost inside = self@;
        assert(at(inside, start as int) == entered(old(self)@, start, given));

        let ran = self.eval_range(start, count);
        let ghost trace = choose|trace: Seq<MachineView<V, N>>| #[trigger]
            range_outcome(inside, start, count, self@, ran, trace);
        let result = match ran {
            Ok(()) => self.pop_value(),
            Err(e) => Err(e),
        };
        assert(frame_outcome(old(self)@, start, count, given, result, trace));

        self.instruction_pointer = orig_ip;
        self.value_stack.truncate(orig_value_stack_size);
        self.keyword_stack.truncate(orig_keyword_stack_size);
        self.bindings.truncate(orig_bindings_size);
        self.value_floor = orig_value_floor;
        self.keyword_floor = orig_keyword_floor;
        proof {
            assert(self@.values =~= old(self)@.values);
            assert(self@.keywords =~= old(self)@.keywords);
            assert(self@.bindings =~= old(self)@.bindings);
        }
        result
    }

    /// Runs the whole program, and gives the value that it leaves on the stack.
    ///
    /// The machine is the same afterwards as before, whether the run succeeds or fails.
    pub fn run(&mut self) -> (res: Result<V, V::Error>)
        requires
            old(self).wf(),
        ensures
            final(self).wf(),
            final(self)@ == old(self)@,
            exists|trace: Seq<MachineView<V, N>>| #[trigger]
                frame_outcome(
                    old(self)@,
                    0,
                    old(self)@.instructions.len() as usize,
                    Seq::empty(),
                    res,
                    trace,
                ),
    {
        let len = self.instructions.len();
        let args: Vec<V> = Vec::new();
        let ghost given = args@;
        let res = self.eval_frame(0, len, args);
        proof {
            let trace = choose|trace: Seq<MachineView<V, N>>| #[trigger]
                frame_outcome(old(self)@, 0, len, given, res, trace);
            assert(given == Seq::<V>::empty());
            assert(frame_outcome(
                old(self)@,
                0,
                old(self)@.instructions.len() as usize,
                Seq::empty(),
                res,
                trace,
            ));
        }
        res
    }
}

/// The state in which a machine starts on a program with a host: at the first
/// instruction, with empty stacks, all of which are in reach, and the given bindings.
pub open spec fn initial<V, N>(
    host: N,
    instructions: Seq<Instruction>,
    constants: Seq<PrimView>,
    symbols: Seq<Seq<char>>,
    bindings: Seq<(ArenaId, V)>,
) -> MachineView<V, N> {
    MachineView {
        host,
        instructions,
        constants,
        symbols,
        ip: 0,
        values: Seq::empty(),
        keywords: Seq::empty(),
        bindings,
        value_floor: 0,
        keyword_floor: 0,
    }
}

/// The state `m` with the instruction pointer at `ip`.
pub open spec fn at<V, N>(m: MachineView<V, N>, ip: int) -> MachineView<V, N> {
    MachineView { ip, ..m }
}

/// Where a range of `count` instructions from `start` ends.
pub open spec fn range_end(start: usize, count: usize) -> int {
    if start + count <= usize::MAX {
        start + count
    } else {
        usize::MAX as int
    }
}

/// Whether `trace` holds the states of a run from `first`: each but the last has its
/// instruction pointer before `end`, and one step leads from it to the next.
pub open spec fn is_run<V: Value, N: Host<V>>(trace: Seq<MachineView<V, N>>, first: MachineView<V, N>, end: int) -> bool {
    &&& trace.len() > 0
    &&& trace[0] == first
    &&& forall|i: int|
        0 <= i < trace.len() - 1 ==> (#[trigger] trace[i]).ip < end && stepped(
            trace[i],
            trace[i + 1],
        )
}

/// Whether `trace` is a run from `first` that has reached `end`.
pub open spec fn completes<V: Value, N: Host<V>>(trace: Seq<MachineView<V, N>>, first: MachineView<V, N>, end: int) -> bool {
    is_run(trace, first, end) && trace.last().ip >= end
}

/// Whether `e` is an error that the value type makes of the message `text`.
pub open spec fn raised<V: Value>(text: Seq<char>, e: V::Error) -> bool {
    exists|message: String| message@ == text && #[trigger] call_ensures(V::error_from, (message,), e)
}

/// Whether a step fails with `e` in the state `m`. Where the machine is stuck, `e` is
/// the machine's error for that. A call of a function fails with the error that the
/// host gave for the call. The lookup of a field fails with the top value's error if
/// that is no record, and with the machine's error for what is undefined if the
/// record has no such field. Nothing else fails.
pub open spec fn fails_with<V: Value, N: Host<V>>(m: MachineView<V, N>, e: V::Error) -> bool {
    if stuck(m) {
        raised::<V>(error_text_at(m, stuck_error(m)), e)
    } else {
        match m.instructions[m.ip] {
            Instruction::PushProp { id } => field_found(m, id, Err(e)) || (field_found(
                m,
                id,
                Ok(None),
            ) && raised::<V>(error_text_at(m, MachineError::Undefined), e)),
            Instruction::CallFunction { argc } => host_gave(m, argc as int, Err(e)),
            _ => false,
        }
    }
}

/// Whether `trace` is a run from `first` that ends before `end`, in a state in which
/// the step fails with `e`.
pub open spec fn breaks_off<V: Value, N: Host<V>>(
    trace: Seq<MachineView<V, N>>,
    first: MachineView<V, N>,
    end: int,
    e: V::Error,
) -> bool {
    is_run(trace, first, end) && trace.last().ip < end && fails_with(trace.last(), e)
}

/// What carrying out a range of instructions in the state `pre` comes to, along
/// `trace`: on success the run has reached the end of the range, and `post` is its
/// last state with the instruction pointer back where it was; a failure is a run
/// that breaks off, with the error of the step that failed.
pub open spec fn range_outcome<V: Value, N: Host<V>>(
    pre: MachineView<V, N>,
    start: usize,
    count: usize,
    post: MachineView<V, N>,
    res: Result<(), V::Error>,
    trace: Seq<MachineView<V, N>>,
) -> bool {
    let first = at(pre, start as int);
    let end = range_end(start, count);
    match res {
        Ok(()) => completes(trace, first, end) && post == at(trace.last(), pre.ip),
        Err(e) => breaks_off(trace, first, end, e),
    }
}

/// The state in which a frame starts: the instruction pointer is at `start`, the
/// arguments lie on the value stack, and what the stacks held before is out of reach.
pub open spec fn entered<V, N>(pre: MachineView<V, N>, start: usize, args: Seq<V>) -> MachineView<V, N> {
    MachineView {
        ip: start as int,
        values: pre.values + args,
        value_floor: pre.values.len() as int,
        keyword_floor: pre.keywords.len() as int,
        ..pre
    }
}

/// What running a frame of `count` instructions from `start` with the arguments
/// `args` comes to, along `trace`, a run from the state in which the frame starts.
/// The result is the value on top of the stack when the run has reached the end of
/// the range. It is an error if the run breaks off, and then the error of the step
/// that failed, or if it reaches the end with nothing on the stack above what was
/// there before, and then the machine's error for an empty value stack.
pub open spec fn frame_outcome<V: Value, N: Host<V>>(
    pre: MachineView<V, N>,
    start: usize,
    count: usize,
    args: Seq<V>,
    res: Result<V, V::Error>,
    trace: Seq<MachineView<V, N>>,
) -> bool {
    let first = entered(pre, start, args);
    let end = range_end(start, count);
    match res {
        Ok(v) => completes(trace, first, end) && trace.last().values.len() > first.value_floor
            && v == trace.last().values.last(),
        Err(e) => breaks_off(trace, first, end, e) || (completes(trace, first, end)
            && trace.last().values.len() <= first.value_floor && raised::<V>(
            error_text_at(at(trace.last(), pre.ip), MachineError::ValueStackEmpty),
            e,
        )),
    }
}

/// What calling a block with the arguments `args` comes to: the outcome of the frame
/// of the block's instructions.
pub open spec fn block_outcome<V: Value, N: Host<V>>(
    pre: MachineView<V, N>,
    block: Block,
    args: Seq<V>,
    res: Result<V, V::Error>,
) -> bool {
    exists|trace: Seq<MachineView<V, N>>| #[trigger]
        frame_outcome(pre, block.ip as usize, block.size as usize, args, res, trace)
}

/// What calling a value comes to: if the value gives a block, the outcome of calling
/// that block, and if not, the error that it gave in place of one.
pub open spec fn call_outcome<V: Value, N: Host<V>>(
    pre: MachineView<V, N>,
    block: Result<Block, V::Error>,
    args: Seq<V>,
    res: Result<V, V::Error>,
) -> bool {
    match block {
        Ok(b) => block_outcome(pre, b, args, res),
        Err(e) => res == Err::<V, V::Error>(e),
    }
}

/// What a step, and any number of steps, leave as they were: the host, the program, the floors,
/// the parts of the stacks below the floors, and the bindings that were there.
pub open spec fn kept<V, N>(pre: MachineView<V, N>, post: MachineView<V, N>) -> bool {
    &&& post.host == pre.host
    &&& post.instructions == pre.instructions
    &&& post.constants == pre.constants
    &&& post.symbols == pre.symbols
    &&& post.value_floor == pre.value_floor
    &&& post.keyword_floor == pre.keyword_floor
    &&& post.values.len() >= pre.value_floor
    &&& post.keywords.len() >= pre.keyword_floor
    &&& forall|i: int| 0 <= i < pre.value_floor ==> post.values[i] == pre.values[i]
    &&& forall|i: int| 0 <= i < pre.keyword_floor ==> post.keywords[i] == pre.keywords[i]
    &&& post.bindings.len() >= pre.bindings.len()
    &&& forall|i: int| 0 <= i < pre.bindings.len() ==> post.bindings[i] == pre.bindings[i]
}

} // verus!
