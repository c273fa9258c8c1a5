//! The registry of host functions: their signatures and their callbacks.
use crate::arena::{key_index, Arena, ArenaId};
use crate::function_builder::{missing_part_text, named_by, symbol_text, FunctionBuilder};
use crate::apply::Apply;
use crate::interpreter::machine::{Callback, Host, Machine};
use crate::interpreter::value::Value;
use crate::signature::{Signature, SignatureView};
use crate::text::push_text;
use crate::typing::types::Ty;
use std::collections::HashMap;
use vstd::prelude::*;

verus! {

broadcast use vstd::std_specs::hash::group_hash_axioms;

/// What the compiler asks of a namespace: the signature of a function by its name,
/// and the symbols that signatures are written in.
pub trait INamespace: Sized {
    /// The names of the symbols, by their ids.
    spec fn symbol_keys(&self) -> Seq<Seq<char>>;

    /// The signatures, by the symbol of the function's name.
    spec fn signature_map(&self) -> Map<ArenaId, SignatureView>;

    fn new_empty() -> (ns: Self)
        ensures
            ns.symbol_keys() == Seq::<Seq<char>>::empty(),
            ns.signature_map() == Map::<ArenaId, SignatureView>::empty(),
    ;

    fn get_signature(&self, name: &str) -> (sig: Option<&Signature>)
        ensures
            match sig {
                Some(s) => signature_named(self.symbol_keys(), self.signature_map(), name@)
                    == Some(s@),
                None => signature_named(self.symbol_keys(), self.signature_map(), name@) is None,
            },
    ;

    fn symbols(&self) -> (arena: &Arena<String>)
        ensures
            arena.keys() == self.symbol_keys(),
    ;
}

/// The signature of the function called `name`, if there is one.
pub open spec fn signature_named(
    symbols: Seq<Seq<char>>,
    signatures: Map<ArenaId, SignatureView>,
    name: Seq<char>,
) -> Option<SignatureView> {
    match key_index(symbols, name, 0) {
        Some(i) => if 0 <= i <= ArenaId::MAX && signatures.dom().contains(i as ArenaId) {
            Some(signatures[i as ArenaId])
        } else {
            None
        },
        None => None,
    }
}

/// Whether a builder over the symbols `names` has been told nothing yet.
pub open spec fn undescribed<C>(builder: FunctionBuilder<C>, names: Seq<Seq<char>>) -> bool {
    &&& builder.names() == names
    &&& builder.signature() == (SignatureView {
        args: Seq::empty(),
        return_type: Ty::Never,
        total: false,
    })
    &&& builder.returned() is None
    &&& !builder.has_callback()
}

/// The signature that a builder has described, once it knows the return type.
pub open spec fn described<C>(builder: FunctionBuilder<C>) -> SignatureView {
    SignatureView { return_type: builder.returned()->Some_0, ..builder.signature() }
}

/// Whether what a builder has described can be added to a namespace with the
/// signatures `table`: the return type and the callback are there, an argument names
/// the function, and no function of that name is there yet.
pub open spec fn definable<C>(builder: FunctionBuilder<C>, table: Map<ArenaId, SignatureView>) -> bool {
    &&& builder.returned() is Some
    &&& builder.has_callback()
    &&& builder.signature().args.len() > 0
    &&& !table.dom().contains(builder.signature().args[0].name)
}

/// The message for a signature that cannot be added to a namespace with the symbols
/// `names`: it has no argument to name the function, or a function of its name is
/// there already.
pub open spec fn refused_text(names: Seq<Seq<char>>, signature: SignatureView) -> Seq<char> {
    if signature.args.len() == 0 {
        "a function needs an argument that names it"@
    } else {
        "function `"@ + symbol_text(names, Some(signature.args[0].name)) + "` already defined"@
    }
}

/// The message for a description that cannot be added to a namespace: it names the
/// return type if that is missing, else the callback if that is missing, and else
/// says why the signature is refused.
pub open spec fn undefinable_text<C>(builder: FunctionBuilder<C>) -> Seq<char> {
    if builder.returned() is None {
        missing_part_text(builder.names(), named_by(builder.signature()), "return type"@)
    } else if !builder.has_callback() {
        missing_part_text(builder.names(), named_by(builder.signature()), "callback"@)
    } else {
        refused_text(builder.names(), builder.signature())
    }
}

/// What defining a function makes of the namespace `before`, given the builder as
/// the description left it: the builder's symbols stay in any case; the described
/// signature and its callback are added under the function's name if that can be,
/// and if not, the signatures and callbacks stay as they were, and the message says
/// what is in the way.
pub open spec fn defined<C>(
    before: Namespace<C>,
    builder: FunctionBuilder<C>,
    after: Namespace<C>,
    res: Result<(), String>,
) -> bool {
    &&& after.names() == builder.names()
    &&& res is Ok <==> definable(builder, before.table())
    &&& res is Ok ==> after.table() == before.table().insert(
        builder.signature().args[0].name,
        described(builder),
    ) && after.callbacks() == before.callbacks().insert(
        builder.signature().args[0].name,
        builder.held_callback()->Some_0,
    )
    &&& res is Err ==> after.table() == before.table() && after.callbacks() == before.callbacks()
    &&& res matches Err(message) ==> message@ == undefinable_text(builder)
}

/// The registry of host functions.
pub struct Namespace<C> {
    signatures: HashMap<ArenaId, Signature>,
    symbols: Arena<String>,
    callbacks: HashMap<ArenaId, C>,
}

impl<C> Namespace<C> {
    /// The names of the symbols, by their ids.
    pub closed spec fn names(&self) -> Seq<Seq<char>> {
        self.symbols.keys()
    }

    /// The signatures, by the symbol of the function's name.
    pub closed spec fn table(&self) -> Map<ArenaId, SignatureView> {
        self.signatures@.map_values(|s: Signature| s@)
    }

    /// The callbacks, by the symbol of the function's name.
    pub closed spec fn callbacks(&self) -> Map<ArenaId, C> {
        self.callbacks@
    }

    /// The symbols of the functions that have a callback.
    pub open spec fn callable(&self) -> Set<ArenaId> {
        self.callbacks().dom()
    }

    /// The callback of the function with the symbol `id`, where it has one.
    pub open spec fn callback_of(&self, id: ArenaId) -> C {
        self.callbacks()[id]
    }
}

/// The message of a call to a function that has no callback: the function's name, as
/// far as the program has that symbol, between ``Function ` `` and `` ` is undefined ``.
pub open spec fn undefined_text(symbols: Seq<Seq<char>>, func: ArenaId) -> Seq<char> {
    "Function `"@ + (if (func as int) < symbols.len() {
        symbols[func as int]
    } else {
        Seq::empty()
    }) + "` is undefined"@
}

impl<C> INamespace for Namespace<C> {
    open spec fn symbol_keys(&self) -> Seq<Seq<char>> {
        self.names()
    }

    open spec fn signature_map(&self) -> Map<ArenaId, SignatureView> {
        self.table()
    }

    fn new_empty() -> (ns: Self) {
        let ns = Namespace {
            signatures: HashMap::new(),
            callbacks: HashMap::new(),
            symbols: Arena::with_capacity(256),
        };
        assert(ns.table() =~= Map::<ArenaId, SignatureView>::empty());
        ns
    }

    fn get_signature(&self, name: &str) -> (sig: Option<&Signature>) {
        let owned = name.to_owned();
        match self.symbols.find(&owned) {
            Some(id) => self.signatures.get(&id),
            None => None,
        }
    }

    fn symbols(&self) -> (arena: &Arena<String>) {
        &self.symbols
    }
}

impl<C> Default for Namespace<C> {
    fn default() -> (ns: Self)
        ensures
            ns.names() == Seq::<Seq<char>>::empty(),
            ns.table() == Map::<ArenaId, SignatureView>::empty(),
    {
        Namespace::new_empty()
    }
}

impl<C> Namespace<C> {
    /// The callback of the function with the symbol `id`.
    pub fn get_callback(&self, id: &ArenaId) -> (callback: Option<&C>)
        ensures
            match callback {
                Some(c) => self.callable().contains(*id) && *c == self.callback_of(*id),
                None => !self.callable().contains(*id),
            },
    {
        self.callbacks.get(id)
    }

    /// The id of the symbol called `s`, which becomes a symbol if it is none yet.
    /// `None` if it would have to be added and every id is taken.
    pub fn intern_symbol(&mut self, s: &str) -> (id: Option<ArenaId>)
        ensures
            final(self).table() == old(self).table(),
            final(self).callbacks() == old(self).callbacks(),
            id is Some <==> crate::arena::has_room(old(self).names(), s@),
            match id {
                Some(id) => (final(self).names(), id as int) == crate::arena::interned(
                    old(self).names(),
                    s@,
                ),
                None => final(self).names() == old(self).names(),
            },
    {
        self.symbols.try_intern(s.to_owned())
    }

    /// The name of the symbol with the given id.
    pub fn lookup_symbol(&self, id: ArenaId) -> (name: &String)
        requires
            (id as int) < self.names().len(),
        ensures
            name@ == self.names()[id as int],
    {
        self.symbols.resolve(id)
    }

    /// The signatures of the functions whose name is a symbol, each once and with that
    /// symbol, in the order of the symbols.
    pub fn iter(&self) -> (all: Vec<(ArenaId, &Signature)>)
        ensures
            forall|j: int, k: int|
                0 <= j < k < all@.len() ==> (#[trigger] all@[j]).0 < (#[trigger] all@[k]).0,
            forall|k: int|
                0 <= k < all@.len() ==> self.table().dom().contains((#[trigger] all@[k]).0)
                    && all@[k].1@ == self.table()[all@[k].0],
            forall|id: ArenaId|
                self.table().dom().contains(id) && id < self.names().len() ==> exists|k: int|
                    0 <= k < all@.len() && (#[trigger] all@[k]).0 == id,
    {
        let mut all: Vec<(ArenaId, &Signature)> = Vec::new();
        let n = self.symbols.len();
        let mut i: usize = 0;
        while i < n
            invariant
                i <= n,
                n <= crate::arena::ARENA_LIMIT,
                forall|k: int| 0 <= k < all@.len() ==> (#[trigger] all@[k]).0 < i,
                forall|j: int, k: int|
                    0 <= j < k < all@.len() ==> (#[trigger] all@[j]).0 < (#[trigger] all@[k]).0,
                forall|k: int|
                    0 <= k < all@.len() ==> self.table().dom().contains((#[trigger] all@[k]).0)
                        && all@[k].1@ == self.table()[all@[k].0],
                forall|id: ArenaId|
                    self.table().dom().contains(id) && id < i ==> exists|k: int|
                        0 <= k < all@.len() && (#[trigger] all@[k]).0 == id,
            decreases n - i,
        {
            let id = i as ArenaId;
            match self.signatures.get(&id) {
                Some(sig) => {
                    let ghost before = all@;
                    all.push((id, sig));
                    assert(all@[before.len() as int].0 == id);
                    assert forall|other: ArenaId|
                        self.table().dom().contains(other) && other < i + 1 implies exists|
                        k: int,
                    |
                        0 <= k < all@.len() && (#[trigger] all@[k]).0 == other by {
                        if other < i {
                            let k = choose|k: int|
                                0 <= k < before.len() && (#[trigger] before[k]).0 == other;
                            assert(all@[k].0 == other);
                        }
                    }
                },
                None => {},
            }
            i += 1;
        }
        all
    }

    /// Adds a function with its callback. Fails, and changes nothing, if the
    /// signature has no argument to name the function, or if a function of that
    /// name is there already.
    pub fn insert(&mut self, signature: Signature, callback: C) -> (res:
        Result<(), String>)
        ensures
            final(self).names() == old(self).names(),
            match res {
                Ok(()) => {
                    &&& signature@.args.len() > 0
                    &&& !old(self).table().dom().contains(signature@.args[0].name)
                    &&& final(self).table() == old(self).table().insert(
                        signature@.args[0].name,
                        signature@,
                    )
                    &&& final(self).callbacks() == old(self).callbacks().insert(
                        signature@.args[0].name,
                        callback,
                    )
                },
                Err(message) => {
                    &&& signature@.args.len() == 0 || old(self).table().dom().contains(
                        signature@.args[0].name,
                    )
                    &&& final(self).table() == old(self).table()
                    &&& final(self).callbacks() == old(self).callbacks()
                    &&& message@ == refused_text(old(self).names(), signature@)
                },
            },
    {
        let name = match signature.try_name() {
            Some(name) => name,
            None => {
                let mut message = String::new();
                push_text(&mut message, "a function needs an argument that names it");
                return Err(message);
            },
        };
        if self.signatures.contains_key(&name) {
            let mut message = String::new();
            push_text(&mut message, "function `");
            match self.symbols.get(name) {
                Some(text) => push_text(&mut message, text.as_str()),
                None => {},
            }
            push_text(&mut message, "` already defined");
            assert(message@ =~= refused_text(self.names(), signature@));
            return Err(message);
        }
        let ghost before = self.table();
        self.signatures.insert(name, signature);
        self.callbacks.insert(name, callback);
        assert(self.table() =~= before.insert(name, signature@));
        Ok(())
    }

    /// Defines a function: `f` describes it to a builder that starts over the
    /// namespace's symbols and knows nothing else, and what it described is added as
    /// `insert` adds it. The symbols that `f` interned stay. Fails, with the
    /// signatures and callbacks unchanged, exactly when the description lacks the
    /// return type or the callback, names no argument, or names a function that is
    /// there already.
    pub fn define<F: Fn(&mut FunctionBuilder<C>)>(&mut self, f: F) -> (res: Result<(), String>)
        requires
            forall|b: &mut FunctionBuilder<C>| call_requires(f, (b,)),
        ensures
            exists|b: &mut FunctionBuilder<C>|
                undescribed(*b, old(self).names()) && #[trigger] call_ensures(f, (b,), ())
                    && defined(*old(self), *final(b), *final(self), res),
    {
        let mut taken: Arena<String> = Arena::with_capacity(0);
        core::mem::swap(&mut self.symbols, &mut taken);
        let mut builder: FunctionBuilder<C> = FunctionBuilder::new(taken);
        f(&mut builder);
        let (symbols, parts) = builder.into_parts();
        self.symbols = symbols;
        match parts {
            Ok((signature, callback)) => {
let done = self.insert(signature, callback);
                                done
            },
            Err(message) => Err(message),
        }
    }
}

impl<V: Value, C: Callback<V>> Host<V> for Namespace<C> {
    /// Calls the callback of the function, or fails if the function has none.
    fn call<'a>(&self, func: ArenaId, args: Apply<V>, vm: &mut Machine<'a, V, Self>) -> (res:
        Result<V, V::Error>)
        ensures
            self.callable().contains(func) ==> exists|m: &mut Machine<'a, V, Self>|
                *m == *old(vm) && *final(m) == *final(vm) && #[trigger] call_ensures(
                    <C as Callback<V>>::call,
                    (&self.callback_of(func), args, m),
                    res,
                ),
            !self.callable().contains(func) ==> *final(vm) == *old(vm),
            !self.callable().contains(func) ==> res is Err && exists|message: String|
                message@ == undefined_text(old(vm)@.symbols, func) && #[trigger] call_ensures(
                    V::error_from,
                    (message,),
                    res->Err_0,
                ),
    {
        match self.callbacks.get(&func) {
            Some(callback) => {
                assert(*callback == self.callback_of(func));
                callback.call(args, vm)
            },
            None => {
                let mut message = String::new();
                push_text(&mut message, "Function `");
                match vm.symbol(func) {
                    Some(name) => push_text(&mut message, name.as_str()),
                    None => {},
                }
                push_text(&mut message, "` is undefined");
                assert(message@ =~= undefined_text(vm@.symbols, func));
                let error = V::error_from(message);
                assert(message@ == undefined_text(vm@.symbols, func) && call_ensures(
                    V::error_from,
                    (message,),
                    error,
                ));
                let failed: Result<V, V::Error> = Err(error);
                assert(failed matches Err(made) ==> made == error);
                failed
            },
        }
    }
}

} // verus!
