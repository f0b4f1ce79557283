use vstd::prelude::*;

use crate::search::{first_match, lemma_first_match, lemma_first_match_at};
use crate::text::str_eq;

verus! {

/// A pair of object types as character sequences.
pub type TypePair = (Seq<char>, Seq<char>);

/// Whether a pair is `key`.
pub open spec fn is_key(key: TypePair) -> spec_fn(TypePair) -> bool {
    |k: TypePair| k == key
}

/// The index of the first entry of `keys` equal to `key`, if any.
pub open spec fn find_key(keys: Seq<TypePair>, key: TypePair) -> Option<int> {
    first_match(keys, is_key(key))
}

/// The pair with its two types swapped.
pub open spec fn swapped(key: TypePair) -> TypePair {
    (key.1, key.0)
}

/// The collision callbacks, one per pair of object types.
pub struct CollisionHandlerRegistry<H> {
    handlers: Vec<((String, String), H)>,
}

impl<H> CollisionHandlerRegistry<H> {
    /// The registered type pairs, in the order they were added.
    pub closed spec fn keys(&self) -> Seq<TypePair> {
        self.handlers@.map_values(|e: ((String, String), H)| (e.0.0@, e.0.1@))
    }

    /// The callback registered for the `i`-th pair.
    pub closed spec fn handler(&self, i: int) -> H {
        self.handlers@[i].1
    }

    /// No type pair is registered twice.
    #[verifier::type_invariant]
    spec fn well_formed(&self) -> bool {
        forall|i: int, j: int|
            0 <= i < j < self.keys().len() ==> #[trigger] self.keys()[i] != #[trigger] self.keys()[j]
    }

    pub fn new() -> (r: CollisionHandlerRegistry<H>)
        ensures
            r.keys().len() == 0,
    {
        CollisionHandlerRegistry { handlers: Vec::new() }
    }

    /// The position of the callback for exactly this pair, if there is one.
    fn position(&self, a: &str, b: &str) -> (r: Option<usize>)
        ensures
            r matches Some(i) ==> i == find_key(self.keys(), (a@, b@)).unwrap() && i
                < self.handlers@.len(),
            r is Some <==> find_key(self.keys(), (a@, b@)) is Some,
    {
        let mut k: usize = 0;
        proof {
            lemma_first_match(self.keys(), is_key((a@, b@)));
        }
        while k < self.handlers.len()
            invariant
                0 <= k <= self.handlers@.len(),
                self.keys().len() == self.handlers@.len(),
                forall|j: int| 0 <= j < k ==> #[trigger] self.keys()[j] != (a@, b@),
                find_key(self.keys(), (a@, b@)) matches Some(i) ==> 0 <= i < self.keys().len()
                    && self.keys()[i] == (a@, b@),
            decreases self.handlers@.len() - k,
        {
            let entry = &self.handlers[k];
            proof {
                assert(self.keys()[k as int] == (entry.0.0@, entry.0.1@));
            }
            if str_eq(entry.0.0.as_str(), a) && str_eq(entry.0.1.as_str(), b) {
                proof {
                    lemma_first_match_at(self.keys(), is_key((a@, b@)), k as int);
                }
                return Some(k);
            }
            k = k + 1;
        }
        None
    }

    /// Whether a callback is registered for exactly this pair.
    pub fn contains_key(&self, mapping: &(String, String)) -> (r: bool)
        ensures
            r == self.keys().contains((mapping.0@, mapping.1@)),
    {
        let p = self.position(mapping.0.as_str(), mapping.1.as_str());
        proof {
            lemma_find_key_contains(self.keys(), (mapping.0@, mapping.1@));
        }
        p.is_some()
    }

    /// Registers `callback` for the pair `mapping`, which must not be registered yet.
    pub fn add(&mut self, mapping: (String, String), callback: H)
        requires
            !old(self).keys().contains((mapping.0@, mapping.1@)),
        ensures
            final(self).keys() == old(self).keys().push((mapping.0@, mapping.1@)),
            final(self).handler(old(self).keys().len() as int) == callback,
            forall|i: int|
                0 <= i < old(self).keys().len() ==> final(self).handler(i) == old(self).handler(i),
    {
        proof {
            use_type_invariant(&*self);
        }
        let ghost key = (mapping.0@, mapping.1@);
        let ghost before = *self;
        let mut handlers: Vec<((String, String), H)> = Vec::new();
        std::mem::swap(&mut handlers, &mut self.handlers);
        handlers.push((mapping, callback));
        let ghost pushed = handlers@.map_values(|e: ((String, String), H)| (e.0.0@, e.0.1@));
        proof {
            assert(pushed =~= before.keys().push(key));
            assert forall|i: int, j: int| 0 <= i < j < pushed.len() implies #[trigger] pushed[i]
                != #[trigger] pushed[j] by {
                if j == pushed.len() - 1 {
                    assert(before.keys()[i] == pushed[i]);
                }
            }
        }
        self.handlers = handlers;
    }

    /// Finds the callback for the pair `mapping`. The pair as given is looked up first; if it
    /// is not registered, the swapped pair is, and the result then says that the two objects
    /// must be handed to the callback in swapped order.
    pub fn lookup(&self, mapping: &(String, String)) -> (r: Option<(&H, bool)>)
        ensures
            ({
                let key = (mapping.0@, mapping.1@);
                match find_key(self.keys(), key) {
                    Some(i) => r == Some((&self.handler(i), false)),
                    None => match find_key(self.keys(), swapped(key)) {
                        Some(j) => r == Some((&self.handler(j), true)),
                        None => r is None,
                    },
                }
            }),
            r is Some <==> resolves(self.keys(), (mapping.0@, mapping.1@)),
    {
        match self.position(mapping.0.as_str(), mapping.1.as_str()) {
            Some(i) => Some((&self.handlers[i].1, false)),
            None => match self.position(mapping.1.as_str(), mapping.0.as_str()) {
                Some(j) => Some((&self.handlers[j].1, true)),
                None => None,
            },
        }
    }
}

/// `find_key` finds exactly the keys the sequence contains, at an index that holds them.
pub proof fn lemma_find_key_contains(keys: Seq<TypePair>, key: TypePair)
    ensures
        find_key(keys, key) is Some <==> keys.contains(key),
        find_key(keys, key) matches Some(i) ==> 0 <= i < keys.len() && keys[i] == key,
{
    lemma_first_match(keys, is_key(key));
}

/// Some callback handles the pair, in one order or the other.
pub open spec fn resolves(keys: Seq<TypePair>, key: TypePair) -> bool {
    find_key(keys, key) is Some || find_key(keys, swapped(key)) is Some
}

/// A lookup finds a callback for a pair exactly when it finds one for the swapped pair.
pub proof fn lemma_lookup_symmetric(keys: Seq<TypePair>, key: TypePair)
    ensures
        resolves(keys, key) == resolves(keys, swapped(key)),
{
    assert(swapped(swapped(key)) == key);
}

} // verus!
