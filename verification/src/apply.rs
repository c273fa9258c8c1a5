//! A call of a host function: the keywords and values that it was given.
use crate::arena::ArenaId;
use crate::text::{decimal, decimal_text, push_text};
use crate::with_error::WithError;
use vstd::prelude::*;

verus! {

/// The arguments of a call, in the order in which the call gave them. The keyword of
/// the first one names the function.
pub struct Apply<V> {
    args: Vec<(ArenaId, V)>,
}

impl<V> View for Apply<V> {
    type V = Seq<(ArenaId, V)>;

    closed spec fn view(&self) -> Seq<(ArenaId, V)> {
        self.args@
    }
}

/// The position of the first argument with the keyword `name` at or after `i`.
pub open spec fn keyword_index<V>(args: Seq<(ArenaId, V)>, name: ArenaId, i: int) -> Option<int>
    decreases args.len() - i,
{
    if i < 0 || i >= args.len() {
        None
    } else if args[i].0 == name {
        Some(i)
    } else {
        keyword_index(args, name, i + 1)
    }
}

/// The values of the arguments with the keyword `name` from position `i` on.
pub open spec fn values_of<V>(args: Seq<(ArenaId, V)>, name: ArenaId, i: int) -> Seq<V>
    decreases args.len() - i,
{
    if i < 0 || i >= args.len() {
        Seq::empty()
    } else if args[i].0 == name {
        seq![args[i].1] + values_of(args, name, i + 1)
    } else {
        values_of(args, name, i + 1)
    }
}

/// `keyword_index` finds an argument with the given keyword.
pub proof fn lemma_keyword_index<V>(args: Seq<(ArenaId, V)>, name: ArenaId, i: int)
    requires
        0 <= i,
    ensures
        match keyword_index(args, name, i) {
            Some(k) => i <= k < args.len() && args[k].0 == name,
            None => forall|k: int| i <= k < args.len() ==> (#[trigger] args[k]).0 != name,
        },
    decreases args.len() - i,
{
    if i < args.len() && args[i].0 != name {
        lemma_keyword_index(args, name, i + 1);
    }
}

/// The text that says that the argument `name` is missing.
pub open spec fn missing_argument_text(name: ArenaId) -> Seq<char> {
    "Missing required argument "@ + decimal_text(name as u64)
}

fn missing_argument(name: ArenaId) -> (message: String)
    ensures
        message@ == missing_argument_text(name),
{
    let mut message = String::new();
    push_text(&mut message, "Missing required argument ");
    let number = decimal(name as u64);
    push_text(&mut message, number.as_str());
    assert(message@ =~= missing_argument_text(name));
    message
}

impl<V> Apply<V> {
    /// A call without arguments.
    pub fn new() -> (apply: Self)
        ensures
            apply@ == Seq::<(ArenaId, V)>::empty(),
    {
        Apply { args: Vec::new() }
    }

    /// A call without arguments, with room for `capacity` of them.
    pub fn with_capacity(capacity: usize) -> (apply: Self)
        ensures
            apply@ == Seq::<(ArenaId, V)>::empty(),
    {
        Apply { args: Vec::with_capacity(capacity) }
    }

    /// The call with the given arguments.
    pub fn from_pairs(args: Vec<(ArenaId, V)>) -> (apply: Self)
        ensures
            apply@ == args@,
    {
        Apply { args }
    }

    /// The function that is called: the keyword of the first argument.
    pub fn func_id(&self) -> (id: &ArenaId)
        requires
            self@.len() > 0,
        ensures
            *id == self@[0].0,
    {
        &self.args[0].0
    }

    /// The value of the first argument with the keyword `name`.
    pub fn get(&self, name: &ArenaId) -> (found: Option<&V>)
        ensures
            match found {
                Some(v) => keyword_index(self@, *name, 0) matches Some(k) && *v == self@[k].1,
                None => keyword_index(self@, *name, 0) is None,
            },
    {
        let mut i: usize = 0;
        while i < self.args.len()
            invariant
                i <= self.args.len(),
                keyword_index(self@, *name, i as int) == keyword_index(self@, *name, 0),
            decreases self.args.len() - i,
        {
            if self.args[i].0 == *name {
                return Some(&self.args[i].1);
            }
            i += 1;
        }
        None
    }

    /// The values of all arguments with the keyword `name`, in their order.
    pub fn all(&self, name: ArenaId) -> (found: Vec<&V>)
        ensures
            found@.len() == values_of(self@, name, 0).len(),
            forall|i: int| 0 <= i < found@.len() ==> *found@[i] == values_of(self@, name, 0)[i],
    {
        let mut result: Vec<&V> = Vec::with_capacity(self.args.len());
        let ghost mut done: Seq<V> = Seq::empty();
        let mut i: usize = 0;
        while i < self.args.len()
            invariant
                i <= self.args.len(),
                result@.len() == done.len(),
                forall|k: int| 0 <= k < result@.len() ==> *result@[k] == done[k],
                done + values_of(self@, name, i as int) == values_of(self@, name, 0),
            decreases self.args.len() - i,
        {
            if self.args[i].0 == name {
                result.push(&self.args[i].1);
                proof {
                    let rest = values_of(self@, name, i + 1);
                    assert(done.push(self@[i as int].1) + rest =~= done + (seq![self@[i as int].1]
                        + rest));
                    done = done.push(self@[i as int].1);
                }
            }
            i += 1;
        }
        proof {
            assert(done + Seq::<V>::empty() =~= done);
        }
        result
    }

    /// The arguments in their order.
    pub fn iter(&self) -> (args: &Vec<(ArenaId, V)>)
        ensures
            args@ == self@,
    {
        &self.args
    }

    /// The arguments in their order.
    pub fn into_iter(self) -> (args: Vec<(ArenaId, V)>)
        ensures
            args@ == self@,
    {
        self.args
    }

    /// The number of arguments.
    pub fn len(&self) -> (n: usize)
        ensures
            n == self@.len(),
    {
        self.args.len()
    }
}

impl<V: WithError> Apply<V> {
    /// The value of the first argument with the keyword `name`, or the error that says
    /// that it is missing.
    pub fn demand(&self, name: &ArenaId) -> (found: Result<&V, V::Error>)
        ensures
            found is Ok <==> keyword_index(self@, *name, 0) is Some,
            found matches Ok(v) ==> *v == self@[keyword_index(self@, *name, 0)->Some_0].1,
            found matches Err(e) ==> exists|message: String|
                message@ == missing_argument_text(*name) && #[trigger] call_ensures(
                    V::error_from,
                    (message,),
                    e,
                ),
    {
        match self.get(name) {
            Some(v) => Ok(v),
            None => {
                let message = missing_argument(*name);
                let ghost witness = message;
                let e = V::error_from(message);
                assert(exists|message: String|
                    message@ == missing_argument_text(*name) && #[trigger] call_ensures(
                        V::error_from,
                        (message,),
                        e,
                    )) by {
                    assert(witness@ == missing_argument_text(*name) && call_ensures(
                        V::error_from,
                        (witness,),
                        e,
                    ));
                }
                let found: Result<&V, V::Error> = Err(e);
                assert(found matches Err(made) ==> made == e);
                found
            },
        }
    }
}

} // verus!
