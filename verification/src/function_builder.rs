//! Describes a host function step by step.
use crate::arena::{has_room, interned, Arena, ArenaId};
use crate::signature::{Argument, ArgumentView, Signature, SignatureView};
use crate::text::push_text;
use crate::typing::types::{Ty, Type};
use vstd::prelude::*;

verus! {

/// What is known of a function so far: the arguments in the order in which they were
/// declared, the type that it returns, and its callback.
pub struct FunctionBuilder<C> {
    symbols: Arena<String>,
    signature: Signature,
    return_type: Option<Type>,
    callback: Option<C>,
}

impl<C> FunctionBuilder<C> {
    /// The names of the symbols, by their ids.
    pub closed spec fn names(&self) -> Seq<Seq<char>> {
        self.symbols.keys()
    }

    /// The signature so far. Its return type is `Never` until the end.
    pub closed spec fn signature(&self) -> SignatureView {
        self.signature@
    }

    /// The type that the function returns, if it was said.
    pub closed spec fn returned(&self) -> Option<Ty> {
        match self.return_type {
            Some(ty) => Some(ty@),
            None => None,
        }
    }

    /// The callback that the function was given, if it was given one.
    pub closed spec fn held_callback(&self) -> Option<C> {
        self.callback
    }

    /// Whether the function has a callback.
    pub open spec fn has_callback(&self) -> bool {
        self.held_callback() is Some
    }

    /// A builder that knows nothing of the function yet, over the given symbols.
    pub fn new(symbols: Arena<String>) -> (builder: Self)
        ensures
            builder.names() == symbols.keys(),
            builder.signature() == (SignatureView {
                args: Seq::empty(),
                return_type: Ty::Never,
                total: false,
            }),
            builder.returned() is None,
            !builder.has_callback(),
    {
        FunctionBuilder {
            symbols,
            signature: Signature::with_capacity(4),
            return_type: None,
            callback: None,
        }
    }

    /// Declares an argument: interns its name, and adds the argument under that
    /// symbol after those declared before. `None`, and nothing declared, exactly
    /// when the name is no symbol yet and no id is left for it.
    fn declare(&mut self, name: &str, ty: Type, variadic: bool, required: bool) -> (id: Option<
        ArenaId,
    >)
        ensures
            final(self).returned() == old(self).returned(),
            final(self).held_callback() == old(self).held_callback(),
            id is Some <==> has_room(old(self).names(), name@),
            match id {
                Some(id) => {
                    &&& (final(self).names(), id as int) == interned(old(self).names(), name@)
                    &&& final(self).signature() == (SignatureView {
                        args: old(self).signature().args.push(
                            ArgumentView { name: id, ty: ty@, variadic, required },
                        ),
                        ..old(self).signature()
                    })
                },
                None => final(self).names() == old(self).names() && final(self).signature()
                    == old(self).signature(),
            },
    {
        match self.symbols.try_intern(name.to_owned()) {
            Some(name_id) => {
                self.signature.add_argument(Argument { name: name_id, ty, variadic, required });
                Some(name_id)
            },
            None => None,
        }
    }

    /// Declares an argument that a call has to give once. Gives the argument's symbol,
    /// or `None`, and declares nothing, if no symbol is left for it.
    pub fn required_arg(&mut self, name: &str, ty: Type) -> (id: Option<ArenaId>)
        ensures
            final(self).returned() == old(self).returned(),
            final(self).held_callback() == old(self).held_callback(),
            id is Some <==> has_room(old(self).names(), name@),
            match id {
                Some(id) => {
                    &&& (final(self).names(), id as int) == interned(old(self).names(), name@)
                    &&& final(self).signature() == (SignatureView {
                        args: old(self).signature().args.push(
                            ArgumentView { name: id, ty: ty@, variadic: false, required: true },
                        ),
                        ..old(self).signature()
                    })
                },
                None => final(self).names() == old(self).names() && final(self).signature()
                    == old(self).signature(),
            },
    {
        self.declare(name, ty, false, true)
    }

    /// Declares an argument that a call may give once.
    pub fn optional_arg(&mut self, name: &str, ty: Type) -> (id: Option<ArenaId>)
        ensures
            final(self).returned() == old(self).returned(),
            final(self).held_callback() == old(self).held_callback(),
            id is Some <==> has_room(old(self).names(), name@),
            match id {
                Some(id) => {
                    &&& (final(self).names(), id as int) == interned(old(self).names(), name@)
                    &&& final(self).signature() == (SignatureView {
                        args: old(self).signature().args.push(
                            ArgumentView { name: id, ty: ty@, variadic: false, required: false },
                        ),
                        ..old(self).signature()
                    })
                },
                None => final(self).names() == old(self).names() && final(self).signature()
                    == old(self).signature(),
            },
    {
        self.declare(name, ty, false, false)
    }

    /// Declares an argument that a call may give any number of times.
    pub fn variadic_arg(&mut self, name: &str, ty: Type) -> (id: Option<ArenaId>)
        ensures
            final(self).returned() == old(self).returned(),
            final(self).held_callback() == old(self).held_callback(),
            id is Some <==> has_room(old(self).names(), name@),
            match id {
                Some(id) => {
                    &&& (final(self).names(), id as int) == interned(old(self).names(), name@)
                    &&& final(self).signature() == (SignatureView {
                        args: old(self).signature().args.push(
                            ArgumentView { name: id, ty: ty@, variadic: true, required: false },
                        ),
                        ..old(self).signature()
                    })
                },
                None => final(self).names() == old(self).names() && final(self).signature()
                    == old(self).signature(),
            },
    {
        self.declare(name, ty, true, false)
    }

    /// Declares an argument that a call has to give at least once.
    pub fn required_variadic_arg(&mut self, name: &str, ty: Type) -> (id: Option<ArenaId>)
        ensures
            final(self).returned() == old(self).returned(),
            final(self).held_callback() == old(self).held_callback(),
            id is Some <==> has_room(old(self).names(), name@),
            match id {
                Some(id) => {
                    &&& (final(self).names(), id as int) == interned(old(self).names(), name@)
                    &&& final(self).signature() == (SignatureView {
                        args: old(self).signature().args.push(
                            ArgumentView { name: id, ty: ty@, variadic: true, required: true },
                        ),
                        ..old(self).signature()
                    })
                },
                None => final(self).names() == old(self).names() && final(self).signature()
                    == old(self).signature(),
            },
    {
        self.declare(name, ty, true, true)
    }

    /// Says which type the function returns.
    pub fn returns_type(&mut self, ty: Type)
        ensures
            final(self).returned() == Some(ty@),
            final(self).names() == old(self).names(),
            final(self).signature() == old(self).signature(),
            final(self).held_callback() == old(self).held_callback(),
    {
        self.return_type = Some(ty);
    }

    /// Says that the function may fail.
    pub fn is_partial(&mut self)
        ensures
            final(self).signature() == (SignatureView { total: false, ..old(self).signature() }),
            final(self).names() == old(self).names(),
            final(self).returned() == old(self).returned(),
            final(self).held_callback() == old(self).held_callback(),
    {
        self.signature.set_total(false);
    }

    /// Says that the function cannot fail.
    pub fn is_total(&mut self)
        ensures
            final(self).signature() == (SignatureView { total: true, ..old(self).signature() }),
            final(self).names() == old(self).names(),
            final(self).returned() == old(self).returned(),
            final(self).held_callback() == old(self).held_callback(),
    {
        self.signature.set_total(true);
    }

    /// Gives the function its callback.
    pub fn callback(&mut self, cb: C)
        ensures
            final(self).held_callback() == Some(cb),
            final(self).names() == old(self).names(),
            final(self).signature() == old(self).signature(),
            final(self).returned() == old(self).returned(),
    {
        self.callback = Some(cb);
    }

    /// The symbols, and the signature with its callback. There is none, but a
    /// message, if the return type or the callback is missing.
    pub fn into_parts(self) -> (out: (
        Arena<String>,
        Result<(Signature, C), String>,
    ))
        ensures
            out.0.keys() == self.names(),
            out.1 is Ok <==> self.returned() is Some && self.has_callback(),
            out.1 matches Ok((signature, callback)) ==> signature@ == (SignatureView {
                return_type: self.returned()->Some_0,
                ..self.signature()
            }) && self.held_callback() == Some(callback),
            out.1 matches Err(message) ==> message@ == missing_part_text(
                self.names(),
                named_by(self.signature()),
                if self.returned() is None {
                    "return type"@
                } else {
                    "callback"@
                },
            ),
    {
        let FunctionBuilder { symbols, signature, return_type, callback } = self;
        let mut signature = signature;
        let name = signature.try_name();
        let output = match return_type {
            Some(ty) => ty,
            None => {
                let message = missing_part(&symbols, name, "return type");
                return (symbols, Err(message));
            },
        };
        let callback = match callback {
            Some(cb) => cb,
            None => {
                let message = missing_part(&symbols, name, "callback");
                return (symbols, Err(message));
            },
        };
        signature.set_return_type(output);
        (symbols, Ok((signature, callback)))
    }
}

/// The text of a symbol, empty where there is none of that id.
pub open spec fn symbol_text(names: Seq<Seq<char>>, name: Option<ArenaId>) -> Seq<char> {
    match name {
        Some(id) if (id as int) < names.len() => names[id as int],
        _ => Seq::empty(),
    }
}

/// The message for a definition that lacks `part`: `def `, the function's name, a
/// colon and a blank, the part, and ` must be defined`.
pub open spec fn missing_part_text(names: Seq<Seq<char>>, name: Option<ArenaId>, part: Seq<char>) -> Seq<
    char,
> {
    "def "@ + symbol_text(names, name) + ": "@ + part + " must be defined"@
}

/// The function's name in a signature: that of its first argument.
pub open spec fn named_by(signature: SignatureView) -> Option<ArenaId> {
    if signature.args.len() > 0 {
        Some(signature.args[0].name)
    } else {
        None
    }
}

/// The message that says which part of a definition is missing.
fn missing_part(symbols: &Arena<String>, name: Option<ArenaId>, part: &str) -> (message: String)
    ensures
        message@ == missing_part_text(symbols.keys(), name, part@),
{
    let mut message = String::new();
    push_text(&mut message, "def ");
    match name {
        Some(id) => match symbols.get(id) {
            Some(text) => push_text(&mut message, text.as_str()),
            None => {},
        },
        None => {},
    }
    push_text(&mut message, ": ");
    push_text(&mut message, part);
    push_text(&mut message, " must be defined");
    message
}

} // verus!
