use vstd::prelude::*;

use crate::rust_wasm::geom::BoundingBox;

verus! {

/// A collision between the objects with the two ids.
#[derive(Debug, Eq, PartialEq)]
pub struct Collision(pub u16, pub u16);

/// The collisions of `s` that involve the object `id`, in their order in `s`.
pub open spec fn involving(s: Seq<Collision>, id: u16) -> Seq<Collision>
    decreases s.len(),
{
    if s.len() == 0 {
        Seq::empty()
    } else {
        let rest = involving(s.drop_last(), id);
        if s.last().0 == id || s.last().1 == id {
            rest.push(s.last())
        } else {
            rest
        }
    }
}

/// The values behind a sequence of references.
pub open spec fn deref_all(s: Seq<&Collision>) -> Seq<Collision> {
    s.map_values(|c: &Collision| *c)
}

/// Read access to the collisions found in one round of detection.
pub trait CollisionRegistry {
    /// The collisions held, in the order they were found.
    spec fn collisions(&self) -> Seq<Collision>;

    /// All collisions, in order.
    fn get_collisions(&self) -> (r: Vec<&Collision>)
        ensures
            deref_all(r@) == self.collisions(),
    ;

    /// The collisions in which `id` takes part, in order.
    fn get_collisions_by_id(&self, id: u16) -> (r: Vec<&Collision>)
        ensures
            deref_all(r@) == involving(self.collisions(), id),
    ;
}

/// A list of collisions.
pub struct Collisions {
    pub state: Vec<Collision>,
}

impl Collisions {
    pub fn new(collisions: Vec<Collision>) -> (c: Collisions)
        ensures
            c.state@ == collisions@,
    {
        Collisions { state: collisions }
    }
}

impl CollisionRegistry for Collisions {
    open spec fn collisions(&self) -> Seq<Collision> {
        self.state@
    }

    fn get_collisions(&self) -> (r: Vec<&Collision>) {
        let mut r: Vec<&Collision> = Vec::new();
        let mut k: usize = 0;
        while k < self.state.len()
            invariant
                0 <= k <= self.state@.len(),
                deref_all(r@) == self.state@.take(k as int),
            decreases self.state@.len() - k,
        {
            r.push(&self.state[k]);
            assert(self.state@.take(k + 1) == self.state@.take(k as int).push(self.state@[k as int]));
            k = k + 1;
        }
        assert(self.state@.take(k as int) == self.state@);
        r
    }

    fn get_collisions_by_id(&self, id: u16) -> (r: Vec<&Collision>) {
        let mut r: Vec<&Collision> = Vec::new();
        let mut k: usize = 0;
        while k < self.state.len()
            invariant
                0 <= k <= self.state@.len(),
                deref_all(r@) == involving(self.state@.take(k as int), id),
            decreases self.state@.len() - k,
        {
            let c = &self.state[k];
            assert(self.state@.take(k + 1).drop_last() == self.state@.take(k as int));
            if c.0 == id || c.1 == id {
                r.push(c);
            }
            k = k + 1;
        }
        assert(self.state@.take(k as int) == self.state@);
        r
    }
}

/// The collisions of object `i` with the objects `i + 1 .. k`, in that order.
pub open spec fn row_collisions(objs: Seq<(u16, BoundingBox)>, i: int, k: int) -> Seq<Collision>
    decreases k - i,
{
    if k <= i + 1 {
        Seq::empty()
    } else {
        let rest = row_collisions(objs, i, k - 1);
        if objs[i].1.spec_overlaps(&objs[k - 1].1) {
            rest.push(Collision(objs[i].0, objs[k - 1].0))
        } else {
            rest
        }
    }
}

/// The collisions of the objects `0 .. m` with the objects after them, pair by pair:
/// first all pairs of object 0, then those of object 1, and so on.
pub open spec fn collisions_upto(objs: Seq<(u16, BoundingBox)>, m: int) -> Seq<Collision>
    decreases m,
{
    if m <= 0 {
        Seq::empty()
    } else {
        collisions_upto(objs, m - 1) + row_collisions(objs, m - 1, objs.len() as int)
    }
}

/// Finds overlapping objects.
pub struct CollisionDetector {}

impl CollisionDetector {
    pub fn new() -> (d: CollisionDetector) {
        CollisionDetector {}
    }

    /// For every pair of objects, the first before the second in `objs`, reports a collision
    /// when the first object's box overlaps the second's (some corner of the second lies within
    /// the first). Pairs come in the order of the first object, then of the second.
    pub fn detect_collisions(&self, objs: &Vec<(u16, BoundingBox)>) -> (r: Collisions)
        ensures
            r.collisions() == collisions_upto(objs@, objs@.len() as int),
    {
        let mut collisions: Vec<Collision> = Vec::new();
        if objs.len() == 0 {
            return Collisions::new(collisions);
        }
        let n = objs.len();
        let mut i: usize = 0;
        while i < n
            invariant
                n == objs@.len(),
                0 <= i <= n,
                collisions@ == collisions_upto(objs@, i as int),
            decreases n - i,
        {
            let obj = &objs[i];
            let ghost before = collisions@;
            let mut j: usize = i + 1;
            while j < n
                invariant
                    n == objs@.len(),
                    0 <= i < n,
                    i + 1 <= j <= n,
                    obj == objs@[i as int],
                    collisions@ == before + row_collisions(objs@, i as int, j as int),
                decreases n - j,
            {
                let other = &objs[j];
                if obj.1.overlaps(&other.1) {
                    collisions.push(Collision(obj.0, other.0));
                }
                j = j + 1;
            }
            i = i + 1;
        }
        Collisions::new(collisions)
    }
}

proof fn lemma_row_members(objs: Seq<(u16, BoundingBox)>, i: int, k: int, c: Collision)
    ensures
        row_collisions(objs, i, k).contains(c) <==> exists|j: int|
            i < j < k && #[trigger] objs[i].1.spec_overlaps(&objs[j].1) && c == Collision(
                objs[i].0,
                objs[j].0,
            ),
    decreases k - i,
{
    broadcast use vstd::seq_lib::lemma_seq_contains_after_push;

    if k > i + 1 {
        lemma_row_members(objs, i, k - 1, c);
        if objs[i].1.spec_overlaps(&objs[k - 1].1) && c == Collision(objs[i].0, objs[k - 1].0) {
            assert(objs[i].1.spec_overlaps(&objs[k - 1].1));
        }
    }
}

proof fn lemma_upto_members(objs: Seq<(u16, BoundingBox)>, m: int, c: Collision)
    ensures
        collisions_upto(objs, m).contains(c) <==> exists|i: int, j: int|
            0 <= i < m && i < j < objs.len() && #[trigger] objs[i].1.spec_overlaps(&objs[j].1) && c
                == Collision(objs[i].0, objs[j].0),
    decreases m,
{
    broadcast use vstd::seq_lib::lemma_seq_concat_contains_all_elements;

    if m > 0 {
        lemma_upto_members(objs, m - 1, c);
        lemma_row_members(objs, m - 1, objs.len() as int, c);
        if collisions_upto(objs, m).contains(c) {
            if row_collisions(objs, m - 1, objs.len() as int).contains(c) {
                let j = choose|j: int|
                    m - 1 < j < objs.len() && #[trigger] objs[m - 1].1.spec_overlaps(&objs[j].1) && c
                        == Collision(objs[m - 1].0, objs[j].0);
                assert(objs[m - 1].1.spec_overlaps(&objs[j].1));
            }
        }
        if exists|i: int, j: int|
            0 <= i < m && i < j < objs.len() && #[trigger] objs[i].1.spec_overlaps(&objs[j].1) && c
                == Collision(objs[i].0, objs[j].0) {
            let (i, j) = choose|i: int, j: int|
                0 <= i < m && i < j < objs.len() && #[trigger] objs[i].1.spec_overlaps(&objs[j].1)
                    && c == Collision(objs[i].0, objs[j].0);
            assert(objs[i].1.spec_overlaps(&objs[j].1));
        }
    }
}

/// Detection reports exactly the pairs of objects, the first before the second, where some
/// corner of the second object's box lies within the first object's box.
pub proof fn lemma_detected_collisions(objs: Seq<(u16, BoundingBox)>, c: Collision)
    ensures
        collisions_upto(objs, objs.len() as int).contains(c) <==> exists|i: int, j: int|
            0 <= i < j < objs.len() && #[trigger] objs[i].1.spec_overlaps(&objs[j].1) && c
                == Collision(objs[i].0, objs[j].0),
{
    lemma_upto_members(objs, objs.len() as int, c);
}

} // verus!
