use vstd::prelude::*;

use crate::text::str_eq;

verus! {

/// A collision between the objects with the two ids.
#[derive(Debug, Eq, PartialEq)]
pub struct Collision(pub String, pub String);

impl Collision {
    pub fn new(obj_a: &str, obj_b: &str) -> (c: Collision)
        ensures
            c.0@ == obj_a@,
            c.1@ == obj_b@,
    {
        Collision(obj_a.to_owned(), obj_b.to_owned())
    }

}

/// The values behind a sequence of references.
pub open spec fn deref_all(s: Seq<&Collision>) -> Seq<Collision> {
    s.map_values(|c: &Collision| *c)
}

/// The collisions of `s` in which the object `id` takes part, in their order in `s`.
pub open spec fn involving(s: Seq<Collision>, id: Seq<char>) -> Seq<Collision>
    decreases s.len(),
{
    if s.len() == 0 {
        Seq::empty()
    } else {
        let rest = involving(s.drop_last(), id);
        if s.last().0@ == id || s.last().1@ == id {
            rest.push(s.last())
        } else {
            rest
        }
    }
}

/// Read access to the collisions found in one round of detection.
pub trait CollisionRegistry {
    /// The collisions held, in the order they were found.
    spec fn collisions(&self) -> Seq<Collision>;

    /// All collisions, in order.
    fn get_collisions(&self) -> (r: Vec<&Collision>)
        ensures
            deref_all(r@) == self.collisions(),
    ;

    /// The collisions in which the object `id` takes part, in order.
    fn get_collisions_by_id(&self, id: &str) -> (r: Vec<&Collision>)
        ensures
            deref_all(r@) == involving(self.collisions(), id@),
    ;
}

/// A list of collisions.
#[derive(Debug)]
pub struct Collisions {
    pub state: Vec<Collision>,
}

impl Collisions {
    pub fn new(collisions: Vec<Collision>) -> (c: Collisions)
        ensures
            c.state@ == collisions@,
    {
        Collisions { state: collisions }
    }
}

impl CollisionRegistry for Collisions {
    open spec fn collisions(&self) -> Seq<Collision> {
        self.state@
    }

    fn get_collisions(&self) -> (r: Vec<&Collision>) {
        let mut r: Vec<&Collision> = Vec::new();
        let mut k: usize = 0;
        while k < self.state.len()
            invariant
                0 <= k <= self.state@.len(),
                deref_all(r@) == self.state@.take(k as int),
            decreases self.state@.len() - k,
        {
            r.push(&self.state[k]);
            assert(self.state@.take(k + 1) == self.state@.take(k as int).push(self.state@[k as int]));
            k = k + 1;
        }
        assert(self.state@.take(k as int) == self.state@);
        r
    }

    fn get_collisions_by_id(&self, id: &str) -> (r: Vec<&Collision>) {
        let mut r: Vec<&Collision> = Vec::new();
        let mut k: usize = 0;
        while k < self.state.len()
            invariant
                0 <= k <= self.state@.len(),
                deref_all(r@) == involving(self.state@.take(k as int), id@),
            decreases self.state@.len() - k,
        {
            let c = &self.state[k];
            assert(self.state@.take(k + 1).drop_last() == self.state@.take(k as int));
            if str_eq(c.0.as_str(), id) || str_eq(c.1.as_str(), id) {
                r.push(c);
            }
            k = k + 1;
        }
        assert(self.state@.take(k as int) == self.state@);
        r
    }
}

} // verus!
