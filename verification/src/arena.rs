//! Append-only interner: values get dense small integer ids in insertion order.
use vstd::prelude::*;

verus! {

/// Identifier handed out by an [`Arena`]: the position of the value in insertion order.
pub type ArenaId = u16;

/// The number of values that an arena can hold: one for each `ArenaId`.
pub const ARENA_LIMIT: usize = 65536;

/// Values that an [`Arena`] can hold. Two values are the same entry of an arena if
/// they have the same key.
pub trait Internable: Sized {
    type Key;

    /// What tells the value apart from others.
    spec fn key(&self) -> Self::Key;

    /// Whether the two values have the same key.
    fn is_same(&self, other: &Self) -> (r: bool)
        ensures
            r == (self.key() == other.key()),
    ;

    /// A copy of the value.
    fn duplicate(&self) -> (out: Self)
        ensures
            out.key() == self.key(),
    ;
}

impl Internable for String {
    type Key = Seq<char>;

    open spec fn key(&self) -> Seq<char> {
        self@
    }

    fn is_same(&self, other: &Self) -> (r: bool) {
        *self == *other
    }

    fn duplicate(&self) -> (out: Self) {
        self.clone()
    }
}

/// The position of the first of `keys` at or after `i` that is `key`, if there is one.
pub open spec fn key_index<K>(keys: Seq<K>, key: K, i: int) -> Option<int>
    decreases keys.len() - i,
{
    if i < 0 || i >= keys.len() {
        None
    } else if keys[i] == key {
        Some(i)
    } else {
        key_index(keys, key, i + 1)
    }
}

/// `key_index` gives the least position at or after `i` that holds the key, and `None`
/// only if none does.
pub proof fn lemma_key_index<K>(keys: Seq<K>, key: K, i: int)
    requires
        0 <= i,
    ensures
        match key_index(keys, key, i) {
            Some(k) => i <= k < keys.len() && keys[k] == key && forall|j: int|
                i <= j < k ==> #[trigger] keys[j] != key,
            None => forall|j: int| i <= j < keys.len() ==> #[trigger] keys[j] != key,
        },
    decreases keys.len() - i,
{
    if i < keys.len() && keys[i] != key {
        lemma_key_index(keys, key, i + 1);
    }
}

/// Adding a key at the end changes nothing about where a key is found first, except
/// that the added key is now found at the end if it was not found before.
pub proof fn lemma_key_index_push<K>(keys: Seq<K>, added: K, key: K, i: int)
    requires
        0 <= i <= keys.len(),
    ensures
        key_index(keys.push(added), key, i) == match key_index(keys, key, i) {
            Some(k) => Some(k),
            None => if added == key {
                Some(keys.len() as int)
            } else {
                None
            },
        },
    decreases keys.len() - i,
{
    let more = keys.push(added);
    if i < keys.len() {
        assert(more[i] == keys[i]);
        if keys[i] != key {
            lemma_key_index_push(keys, added, key, i + 1);
        }
    } else {
        assert(more[i] == added);
        assert(key_index(more, key, i + 1) is None);
    }
}

/// The keys after interning `key`, and the id that interning gives.
pub open spec fn interned<K>(keys: Seq<K>, key: K) -> (Seq<K>, int) {
    match key_index(keys, key, 0) {
        Some(i) => (keys, i),
        None => (keys.push(key), keys.len() as int),
    }
}

/// Whether `key` can be interned among `keys`: it is there already, or an id is left
/// for it.
pub open spec fn has_room<K>(keys: Seq<K>, key: K) -> bool {
    key_index(keys, key, 0) is Some || keys.len() < ARENA_LIMIT
}

/// An interner. Entries are never removed or changed, so an id stays valid and
/// keeps its meaning for the arena's lifetime.
pub struct Arena<T: Internable> {
    data: Vec<T>,
}

impl<T: Internable> Arena<T> {
    /// The keys of the entries in insertion order: the entry with id `i` has the key
    /// `keys()[i]`.
    pub closed spec fn keys(&self) -> Seq<T::Key> {
        Seq::new(self.data@.len(), |i: int| self.data@[i].key())
    }

    /// No key occurs twice, and every entry has an id.
    #[verifier::type_invariant]
    closed spec fn holds(self) -> bool {
        &&& self.data@.len() <= ARENA_LIMIT
        &&& Seq::new(self.data@.len(), |i: int| self.data@[i].key()).no_duplicates()
    }


    pub fn with_capacity(capacity: usize) -> (arena: Self)
        ensures
            arena.keys() == Seq::<T::Key>::empty(),
    {
        let arena = Arena { data: Vec::with_capacity(capacity) };
        assert(arena.keys() =~= Seq::<T::Key>::empty());
        arena
    }

    /// The number of entries. No key of an arena occurs twice, and every entry has
    /// an id.
    pub fn len(&self) -> (n: usize)
        ensures
            n == self.keys().len(),
            n <= ARENA_LIMIT,
            self.keys().no_duplicates(),
    {
        proof {
            use_type_invariant(self);
        }
        self.data.len()
    }

    /// A copy of the arena.
    pub fn duplicate(&self) -> (out: Self)
        ensures
            out.keys() == self.keys(),
    {
        let mut data: Vec<T> = Vec::with_capacity(self.data.len());
        let mut i: usize = 0;
        while i < self.data.len()
            invariant
                i <= self.data.len(),
                data@.len() == i,
                forall|j: int| 0 <= j < i ==> data@[j].key() == self.data@[j].key(),
            decreases self.data.len() - i,
        {
            data.push(self.data[i].duplicate());
            i += 1;
        }
        proof {
            use_type_invariant(self);
            assert(Seq::new(data@.len(), |i: int| data@[i].key()) =~= self.keys());
        }
        Arena { data }
    }

    /// The id of the entry that is the same as `it`, if the arena holds one.
    pub fn find(&self, it: &T) -> (found: Option<ArenaId>)
        ensures
            match found {
                Some(id) => key_index(self.keys(), it.key(), 0) == Some(id as int),
                None => key_index(self.keys(), it.key(), 0) is None,
            },
    {
        proof {
            use_type_invariant(self);
        }
        let mut i: usize = 0;
        while i < self.data.len()
            invariant
                i <= self.data.len(),
                self.data@.len() == self.keys().len(),
                self.keys().len() <= ARENA_LIMIT,
                key_index(self.keys(), it.key(), i as int) == key_index(
                    self.keys(),
                    it.key(),
                    0,
                ),
            decreases self.data.len() - i,
        {
            if it.is_same(&self.data[i]) {
                return Some(i as ArenaId);
            }
            i += 1;
        }
        None
    }

    /// The id of `member`, which is added at the end if the arena does not hold it yet.
    /// `None` if it would have to be added and every id is taken.
    pub fn try_intern(&mut self, member: T) -> (id: Option<ArenaId>)
        ensures
            id is Some <==> has_room(old(self).keys(), member.key()),
            match id {
                Some(id) => (final(self).keys(), id as int) == interned(
                    old(self).keys(),
                    member.key(),
                ),
                None => {
                    &&& final(self).keys() == old(self).keys()
                    &&& key_index(old(self).keys(), member.key(), 0) is None
                    &&& old(self).keys().len() == ARENA_LIMIT
                },
            },
    {
        match self.find(&member) {
            Some(id) => Some(id),
            None => {
                let n = self.data.len();
                proof {
                    use_type_invariant(&*self);
                }
                if n < ARENA_LIMIT {
                    proof {
                        lemma_key_index(self.keys(), member.key(), 0);
                    }
                    let ghost before = self.keys();
                    let mut data: Vec<T> = Vec::new();
                    assert(Seq::new(data@.len(), |i: int| data@[i].key()) =~= Seq::<
                        T::Key,
                    >::empty());
                    core::mem::swap(&mut self.data, &mut data);
                    data.push(member);
                    assert(Seq::new(data@.len(), |i: int| data@[i].key()) =~= before.push(
                        member.key(),
                    ));
                    self.data = data;
                    Some(n as ArenaId)
                } else {
                    None
                }
            },
        }
    }

    /// The id of `member`, which is added at the end if the arena does not hold it yet.
    pub fn intern(&mut self, member: T) -> (id: ArenaId)
        requires
            old(self).keys().len() < ARENA_LIMIT || key_index(old(self).keys(), member.key(), 0)
                is Some,
        ensures
            (final(self).keys(), id as int) == interned(old(self).keys(), member.key()),
    {
        match self.try_intern(member) {
            Some(id) => id,
            None => 0,
        }
    }

    /// The entry with the given id.
    pub fn resolve(&self, id: ArenaId) -> (entry: &T)
        requires
            (id as int) < self.keys().len(),
        ensures
            entry.key() == self.keys()[id as int],
    {
        &self.data[id as usize]
    }

    /// The entry with the given id, if the arena has handed that id out.
    pub fn get(&self, id: ArenaId) -> (entry: Option<&T>)
        ensures
            match entry {
                Some(e) => (id as int) < self.keys().len() && e.key() == self.keys()[id as int],
                None => (id as int) >= self.keys().len(),
            },
    {
        if (id as usize) < self.data.len() {
            Some(&self.data[id as usize])
        } else {
            None
        }
    }

    /// All entries, in id order.
    pub fn as_slice(&self) -> (entries: &[T])
        ensures
            entries@.len() == self.keys().len(),
            forall|i: int| 0 <= i < entries@.len() ==> (#[trigger] entries@[i]).key()
                == self.keys()[i],
    {
        self.data.as_slice()
    }
}

/// Interning the same value twice gives the same id, and that id resolves to the value:
/// after interning a key, the arena holds that key at the id that was given, and
/// interning the key again gives the same id and adds nothing.
pub proof fn lemma_intern_twice<K>(keys: Seq<K>, key: K)
    ensures
        ({
            let (after, id) = interned(keys, key);
            &&& 0 <= id < after.len()
            &&& after[id] == key
            &&& interned(after, key) == (after, id)
        }),
{
    lemma_key_index(keys, key, 0);
    lemma_key_index_push(keys, key, key, 0);
}

} // verus!
