use vstd::prelude::*;

use crate::pong::collision::collision::{Collision, Collisions, CollisionRegistry};
use crate::text::str_eq;

verus! {

/// Two object types whose objects may collide with each other, in either order.
#[derive(Debug)]
pub struct CollisionGroup(pub String, pub String);

/// Whether the group `(g0, g1)` covers the types `a` and `b`, in either order.
pub open spec fn group_matches(g0: Seq<char>, g1: Seq<char>, a: Seq<char>, b: Seq<char>) -> bool {
    (g0 == a && g1 == b) || (g0 == b && g1 == a)
}

impl CollisionGroup {
    pub open spec fn spec_matches(&self, a: Seq<char>, b: Seq<char>) -> bool {
        group_matches(self.0@, self.1@, a, b)
    }

    pub fn matches(&self, type_a: &str, type_b: &str) -> (r: bool)
        ensures
            r == self.spec_matches(type_a@, type_b@),
    {
        str_eq(self.0.as_str(), type_a) && str_eq(self.1.as_str(), type_b) || str_eq(
            self.0.as_str(),
            type_b,
        ) && str_eq(self.1.as_str(), type_a)
    }
}

/// Whether some group of `groups` covers the types `a` and `b`.
pub open spec fn any_group_matches(groups: Seq<CollisionGroup>, a: Seq<char>, b: Seq<char>) -> bool {
    exists|g: int| 0 <= g < groups.len() && #[trigger] groups[g].spec_matches(a, b)
}

/// The groups of object types that the detector checks for collisions.
pub struct CollisionDetectorConfig {
    groups: Vec<CollisionGroup>,
}

impl CollisionDetectorConfig {
    pub closed spec fn groups(&self) -> Seq<CollisionGroup> {
        self.groups@
    }

    pub fn new() -> (c: CollisionDetectorConfig)
        ensures
            c.groups().len() == 0,
    {
        CollisionDetectorConfig { groups: Vec::new() }
    }

    pub fn matches_any_group(&self, type_a: &str, type_b: &str) -> (r: bool)
        ensures
            r == any_group_matches(self.groups(), type_a@, type_b@),
    {
        let mut k: usize = 0;
        while k < self.groups.len()
            invariant
                0 <= k <= self.groups@.len(),
                forall|g: int| 0 <= g < k ==> !(#[trigger] self.groups@[g].spec_matches(type_a@, type_b@)),
            decreases self.groups@.len() - k,
        {
            if self.groups[k].matches(type_a, type_b) {
                assert(self.groups@[k as int].spec_matches(type_a@, type_b@));
                return true;
            }
            k = k + 1;
        }
        false
    }
}

/// What the detector knows of one object: its id and its type.
pub struct CollisionCandidate {
    pub id: String,
    pub obj_type: String,
}

/// The collisions of object `i` with the objects `i + 1 .. k`, in that order: a pair collides
/// when some group covers the two types and the boxes overlap (`overlaps[i][j]`).
pub open spec fn row_collisions(
    groups: Seq<CollisionGroup>,
    objs: Seq<CollisionCandidate>,
    overlaps: Seq<Vec<bool>>,
    i: int,
    k: int,
) -> Seq<Collision>
    decreases k - i,
{
    if k <= i + 1 {
        Seq::empty()
    } else {
        let rest = row_collisions(groups, objs, overlaps, i, k - 1);
        if any_group_matches(groups, objs[i].obj_type@, objs[k - 1].obj_type@)
            && overlaps[i]@[k - 1] {
            rest.push(Collision(objs[i].id, objs[k - 1].id))
        } else {
            rest
        }
    }
}

/// The collisions of the objects `0 .. m` with the objects after them, object by object.
pub open spec fn collisions_upto(
    groups: Seq<CollisionGroup>,
    objs: Seq<CollisionCandidate>,
    overlaps: Seq<Vec<bool>>,
    m: int,
) -> Seq<Collision>
    decreases m,
{
    if m <= 0 {
        Seq::empty()
    } else {
        collisions_upto(groups, objs, overlaps, m - 1) + row_collisions(
            groups,
            objs,
            overlaps,
            m - 1,
            objs.len() as int,
        )
    }
}

/// `overlaps` has a row and a column for every object.
pub open spec fn square(overlaps: Seq<Vec<bool>>, n: int) -> bool {
    overlaps.len() == n && forall|i: int| 0 <= i < n ==> #[trigger] overlaps[i]@.len() == n
}

/// Finds colliding objects among those whose types form a registered group.
pub struct CollisionDetector {
    config: CollisionDetectorConfig,
}

impl CollisionDetector {
    pub closed spec fn groups(&self) -> Seq<CollisionGroup> {
        self.config.groups()
    }

    pub fn new() -> (d: CollisionDetector)
        ensures
            d.groups().len() == 0,
    {
        CollisionDetector { config: CollisionDetectorConfig::new() }
    }

    pub fn set_groups(&mut self, groups: Vec<CollisionGroup>)
        ensures
            final(self).groups() == groups@,
    {
        self.config.groups = groups;
    }

    /// For every pair of objects, the first before the second in `objs`, reports a collision
    /// `(first id, second id)` when a group covers their types and `overlaps[first][second]`
    /// says that their bounding boxes overlap. Pairs come in the order of the first object,
    /// then of the second.
    pub fn detect_collisions(&self, objs: &Vec<CollisionCandidate>, overlaps: &Vec<Vec<bool>>) -> (r:
        Collisions)
        requires
            square(overlaps@, objs@.len() as int),
        ensures
            r.collisions() == collisions_upto(self.groups(), objs@, overlaps@, objs@.len() as int),
    {
        let mut collisions: Vec<Collision> = Vec::new();
        if objs.len() == 0 {
            return Collisions::new(collisions);
        }
        let n = objs.len();
        let mut i: usize = 0;
        while i < n
            invariant
                n == objs@.len(),
                square(overlaps@, n as int),
                0 <= i <= n,
                collisions@ == collisions_upto(self.groups(), objs@, overlaps@, i as int),
            decreases n - i,
        {
            let obj = &objs[i];
            let ghost before = collisions@;
            let mut j: usize = i + 1;
            while j < n
                invariant
                    n == objs@.len(),
                    square(overlaps@, n as int),
                    0 <= i < n,
                    i + 1 <= j <= n,
                    obj == objs@[i as int],
                    collisions@ == before + row_collisions(
                        self.groups(),
                        objs@,
                        overlaps@,
                        i as int,
                        j as int,
                    ),
                decreases n - j,
            {
                let other = &objs[j];
                if !self.config.matches_any_group(obj.obj_type.as_str(), other.obj_type.as_str()) {
                    j = j + 1;
                    continue;
                }
                assert(overlaps@[i as int]@.len() == n);
                if !overlaps[i][j] {
                    j = j + 1;
                    continue;
                }
                collisions.push(Collision(obj.id.clone(), other.id.clone()));
                j = j + 1;
            }
            i = i + 1;
        }
        Collisions::new(collisions)
    }
}

/// A group covers two types in either order.
pub proof fn lemma_group_matches_symmetric(g: CollisionGroup, a: Seq<char>, b: Seq<char>)
    ensures
        g.spec_matches(a, b) == g.spec_matches(b, a),
{
}

/// Whether some group covers two types does not depend on their order.
pub proof fn lemma_any_group_matches_symmetric(groups: Seq<CollisionGroup>, a: Seq<char>, b: Seq<char>)
    ensures
        any_group_matches(groups, a, b) == any_group_matches(groups, b, a),
{
    if any_group_matches(groups, a, b) {
        let g = choose|g: int| 0 <= g < groups.len() && #[trigger] groups[g].spec_matches(a, b);
        assert(groups[g].spec_matches(b, a));
    }
    if any_group_matches(groups, b, a) {
        let g = choose|g: int| 0 <= g < groups.len() && #[trigger] groups[g].spec_matches(b, a);
        assert(groups[g].spec_matches(a, b));
    }
}

/// The pair of objects `i`, `j` is reported: a group covers their types and their boxes overlap.
pub open spec fn pair_collides(
    groups: Seq<CollisionGroup>,
    objs: Seq<CollisionCandidate>,
    overlaps: Seq<Vec<bool>>,
    i: int,
    j: int,
) -> bool {
    any_group_matches(groups, objs[i].obj_type@, objs[j].obj_type@) && overlaps[i]@[j]
}

proof fn lemma_row_members(
    groups: Seq<CollisionGroup>,
    objs: Seq<CollisionCandidate>,
    overlaps: Seq<Vec<bool>>,
    i: int,
    k: int,
    c: Collision,
)
    ensures
        row_collisions(groups, objs, overlaps, i, k).contains(c) <==> exists|j: int|
            i < j < k && #[trigger] pair_collides(groups, objs, overlaps, i, j) && c == Collision(
                objs[i].id,
                objs[j].id,
            ),
    decreases k - i,
{
    broadcast use vstd::seq_lib::lemma_seq_contains_after_push;

    if k > i + 1 {
        lemma_row_members(groups, objs, overlaps, i, k - 1, c);
        if pair_collides(groups, objs, overlaps, i, k - 1) && c == Collision(objs[i].id, objs[k - 1].id) {
            assert(pair_collides(groups, objs, overlaps, i, k - 1));
        }
    }
}

proof fn lemma_upto_members(
    groups: Seq<CollisionGroup>,
    objs: Seq<CollisionCandidate>,
    overlaps: Seq<Vec<bool>>,
    m: int,
    c: Collision,
)
    ensures
        collisions_upto(groups, objs, overlaps, m).contains(c) <==> exists|i: int, j: int|
            0 <= i < m && i < j < objs.len() && #[trigger] pair_collides(groups, objs, overlaps, i, j)
                && c == Collision(objs[i].id, objs[j].id),
    decreases m,
{
    broadcast use vstd::seq_lib::lemma_seq_concat_contains_all_elements;

    if m > 0 {
        lemma_upto_members(groups, objs, overlaps, m - 1, c);
        lemma_row_members(groups, objs, overlaps, m - 1, objs.len() as int, c);
        if collisions_upto(groups, objs, overlaps, m).contains(c) {
            if row_collisions(groups, objs, overlaps, m - 1, objs.len() as int).contains(c) {
                let j = choose|j: int|
                    m - 1 < j < objs.len() && #[trigger] pair_collides(groups, objs, overlaps, m - 1, j)
                        && c == Collision(objs[m - 1].id, objs[j].id);
                assert(pair_collides(groups, objs, overlaps, m - 1, j));
            }
        }
        if exists|i: int, j: int|
            0 <= i < m && i < j < objs.len() && #[trigger] pair_collides(groups, objs, overlaps, i, j)
                && c == Collision(objs[i].id, objs[j].id) {
            let (i, j) = choose|i: int, j: int|
                0 <= i < m && i < j < objs.len() && #[trigger] pair_collides(groups, objs, overlaps, i, j)
                    && c == Collision(objs[i].id, objs[j].id);
            if i == m - 1 {
                assert(pair_collides(groups, objs, overlaps, m - 1, j));
            } else {
                assert(pair_collides(groups, objs, overlaps, i, j));
            }
        }
    }
}

/// Detection reports exactly the pairs of distinct objects, the first before the second,
/// whose types some group covers and whose boxes overlap: a collision is in the result if and
/// only if it is such a pair.
pub proof fn lemma_detected_collisions(
    groups: Seq<CollisionGroup>,
    objs: Seq<CollisionCandidate>,
    overlaps: Seq<Vec<bool>>,
    c: Collision,
)
    ensures
        collisions_upto(groups, objs, overlaps, objs.len() as int).contains(c) <==> exists|i: int, j: int|
            0 <= i < j < objs.len() && #[trigger] pair_collides(groups, objs, overlaps, i, j) && c
                == Collision(objs[i].id, objs[j].id),
{
    lemma_upto_members(groups, objs, overlaps, objs.len() as int, c);
}

} // verus!
