//! The types of the inputs and of the output of a host function.
use crate::arena::ArenaId;
use crate::text::{decimal, decimal_text, push_char, push_text};
use crate::typing::display::{type_onto, write_type};
use crate::typing::types::{clone_type, Ty, Type};
use vstd::prelude::*;

verus! {

/// One keyword argument of a function.
#[derive(Debug, PartialEq)]
pub struct Argument {
    /// The keyword, as a symbol of the namespace.
    pub name: ArenaId,
    pub ty: Type,
    /// Whether a call may give the argument more than once.
    pub variadic: bool,
    /// Whether a call has to give the argument.
    pub required: bool,
}

/// The model of an [`Argument`].
pub struct ArgumentView {
    pub name: ArenaId,
    pub ty: Ty,
    pub variadic: bool,
    pub required: bool,
}

impl View for Argument {
    type V = ArgumentView;

    open spec fn view(&self) -> ArgumentView {
        ArgumentView {
            name: self.name,
            ty: self.ty@,
            variadic: self.variadic,
            required: self.required,
        }
    }
}

impl Clone for Argument {
    fn clone(&self) -> (out: Argument)
        ensures
            out@ == self@,
    {
        Argument {
            name: self.name,
            ty: clone_type(&self.ty),
            variadic: self.variadic,
            required: self.required,
        }
    }
}

/// The arguments of a function in their order, the type that it returns, and whether
/// it is total. The first argument's keyword is the function's name.
#[derive(Debug, PartialEq)]
pub struct Signature {
    args: Vec<Argument>,
    return_type: Type,
    total: bool,
}

/// The model of a [`Signature`].
pub struct SignatureView {
    pub args: Seq<ArgumentView>,
    pub return_type: Ty,
    pub total: bool,
}

impl View for Signature {
    type V = SignatureView;

    closed spec fn view(&self) -> SignatureView {
        SignatureView {
            args: Seq::new(self.args@.len(), |i: int| self.args@[i]@),
            return_type: self.return_type@,
            total: self.total,
        }
    }
}

/// The position of the first argument called `name` at or after `i`, if there is one.
pub open spec fn arg_index(args: Seq<ArgumentView>, name: ArenaId, i: int) -> Option<int>
    decreases args.len() - i,
{
    if i < 0 || i >= args.len() {
        None
    } else if args[i].name == name {
        Some(i)
    } else {
        arg_index(args, name, i + 1)
    }
}

/// `arg_index` finds an argument of the given name.
pub proof fn lemma_arg_index(args: Seq<ArgumentView>, name: ArenaId, i: int)
    requires
        0 <= i,
    ensures
        match arg_index(args, name, i) {
            Some(k) => i <= k < args.len() && args[k].name == name,
            None => forall|k: int| i <= k < args.len() ==> (#[trigger] args[k]).name != name,
        },
    decreases args.len() - i,
{
    if i < args.len() && args[i].name != name {
        lemma_arg_index(args, name, i + 1);
    }
}

impl Signature {
    /// A signature without arguments that returns `Never` and is not total.
    pub fn with_capacity(capacity: usize) -> (sig: Signature)
        ensures
            sig@ == (SignatureView { args: Seq::empty(), return_type: Ty::Never, total: false }),
    {
        let sig = Signature {
            args: Vec::with_capacity(capacity),
            return_type: Type::Never,
            total: false,
        };
        assert(sig@.args =~= Seq::empty());
        sig
    }

    pub fn add_argument(&mut self, arg: Argument)
        ensures
            final(self)@ == (SignatureView { args: old(self)@.args.push(arg@), ..old(self)@ }),
    {
        self.args.push(arg);
        assert(self@.args =~= old(self)@.args.push(arg@));
    }

    pub fn set_total(&mut self, total: bool)
        ensures
            final(self)@ == (SignatureView { total, ..old(self)@ }),
    {
        self.total = total;
        assert(self@.args =~= old(self)@.args);
    }

    pub fn set_return_type(&mut self, ty: Type)
        ensures
            final(self)@ == (SignatureView { return_type: ty@, ..old(self)@ }),
    {
        self.return_type = ty;
        assert(self@.args =~= old(self)@.args);
    }

    /// The function's name: the keyword of the first argument.
    pub fn name(&self) -> (name: ArenaId)
        requires
            self@.args.len() > 0,
        ensures
            name == self@.args[0].name,
    {
        self.args[0].name
    }

    /// The function's name, if the signature has an argument.
    pub fn try_name(&self) -> (name: Option<ArenaId>)
        ensures
            name == if self@.args.len() > 0 {
                Some(self@.args[0].name)
            } else {
                None
            },
    {
        if self.args.len() > 0 {
            Some(self.args[0].name)
        } else {
            None
        }
    }

    /// The type that the function returns.
    pub fn return_type(&self) -> (ty: &Type)
        ensures
            ty@ == self@.return_type,
    {
        &self.return_type
    }

    pub fn is_total(&self) -> (total: bool)
        ensures
            total == self@.total,
    {
        self.total
    }

    /// The first argument with the keyword `name`.
    pub fn arg(&self, name: ArenaId) -> (found: Option<&Argument>)
        ensures
            match found {
                Some(arg) => arg_index(self@.args, name, 0) matches Some(k) && arg@
                    == self@.args[k],
                None => arg_index(self@.args, name, 0) is None,
            },
    {
        let mut i: usize = 0;
        while i < self.args.len()
            invariant
                i <= self.args.len(),
                self.args@.len() == self@.args.len(),
                arg_index(self@.args, name, i as int) == arg_index(self@.args, name, 0),
            decreases self.args.len() - i,
        {
            if self.args[i].name == name {
                return Some(&self.args[i]);
            }
            i += 1;
        }
        None
    }

    /// The arguments in their order.
    pub fn args(&self) -> (args: &Vec<Argument>)
        ensures
            args@.len() == self@.args.len(),
            forall|i: int| 0 <= i < args@.len() ==> (#[trigger] args@[i])@ == self@.args[i],
    {
        &self.args
    }
}

impl Clone for Signature {
    fn clone(&self) -> (out: Signature)
        ensures
            out@ == self@,
    {
        let mut args: Vec<Argument> = Vec::with_capacity(self.args.len());
        let mut i: usize = 0;
        while i < self.args.len()
            invariant
                i <= self.args.len(),
                args@.len() == i,
                forall|j: int| 0 <= j < i ==> args@[j]@ == self.args@[j]@,
            decreases self.args.len() - i,
        {
            args.push(self.args[i].clone());
            i += 1;
        }
        let out = Signature { args, return_type: clone_type(&self.return_type), total: self.total };
        assert(out@.args =~= self@.args);
        out
    }
}

/// `acc` with the texts of the arguments from position `i` on, with a blank between
/// one and the next: the keyword's number, between `[` and `]` if the argument is
/// variadic, `?` if it is not required, `: ` and the type.
pub open spec fn args_onto(args: Seq<ArgumentView>, i: int, acc: Seq<char>) -> Seq<char>
    decreases args.len() - i,
{
    if i < 0 || i >= args.len() {
        acc
    } else {
        let spaced = if i == 0 {
            acc
        } else {
            acc.push(' ')
        };
        let named = if args[i].variadic {
            (spaced.push('[') + decimal_text(args[i].name as u64)).push(']')
        } else {
            spaced + decimal_text(args[i].name as u64)
        };
        let marked = if args[i].required {
            named
        } else {
            named.push('?')
        };
        args_onto(args, i + 1, type_onto(args[i].ty, marked + ": "@))
    }
}

/// The text of a signature: its arguments, ` :: ` and the type that it returns.
pub open spec fn signature_text(sig: SignatureView) -> Seq<char> {
    type_onto(sig.return_type, args_onto(sig.args, 0, Seq::empty()) + " :: "@)
}

impl Signature {
    /// The text of the signature: see `signature_text`.
    pub fn to_text(&self) -> (text: String)
        ensures
            text@ == signature_text(self@),
    {
        let mut text = String::new();
        let mut i: usize = 0;
        while i < self.args.len()
            invariant
                i <= self.args.len(),
                self.args@.len() == self@.args.len(),
                forall|k: int| 0 <= k < self.args@.len() ==> self@.args[k] == self.args@[k]@,
                args_onto(self@.args, i as int, text@) == args_onto(self@.args, 0, Seq::empty()),
            decreases self.args.len() - i,
        {
            let arg = &self.args[i];
            if i != 0 {
                push_char(&mut text, ' ');
            }
            let name = decimal(arg.name as u64);
            if arg.variadic {
                push_char(&mut text, '[');
                push_text(&mut text, name.as_str());
                push_char(&mut text, ']');
            } else {
                push_text(&mut text, name.as_str());
            }
            if !arg.required {
                push_char(&mut text, '?');
            }
            push_text(&mut text, ": ");
            write_type(&arg.ty, &mut text);
            i += 1;
        }
        push_text(&mut text, " :: ");
        write_type(&self.return_type, &mut text);
        text
    }
}

} // verus!
