//! The spatial index: a k-d tree over grid points, each stored with the key
//! of the cache entry that sits there.

use std::collections::HashMap;
use vstd::multiset::*;
use vstd::prelude::*;

use crate::geometry::{sq_dist, Point, GRID_SPAN};

verus! {

/// A coordinate as the tree holds it: a 64-bit fixed-point number without
/// fractional bits.
pub type GridAxis = fixed::FixedU64<fixed::types::extra::U0>;

/// The k-d tree of the index: three axes, buckets of 32, keys of 64 bits.
pub type GridTree = kiddo::fixed::kdtree::KdTree<GridAxis, u64, 3, 32, u32>;

/// One stored item: the coordinates of a point, and a key.
pub type Item = ((u64, u64, u64), u64);

/// What the index holds: each stored item as often as it was added.
pub type Contents = Multiset<Item>;

/// At most this many stored points may share a coordinate on one axis: half
/// a bucket of the tree.
pub const AXIS_SHARE_LIMIT: u64 = 16;

/// The tree numbers its buckets with 31 bits.
pub const BUCKET_LIMIT: u64 = 2_147_483_647;

/// The index takes this many insertions: as many as share a coordinate at
/// most, for each of the values of an axis. While fewer pairs were inserted,
/// every axis has a value with room.
pub const INSERT_LIMIT: u64 = 536_870_928;

/// `kiddo::fixed::kdtree::KdTree`, the fixed-point k-d tree. Nothing inside
/// it is visible to proofs.
#[verifier::external_type_specification]
#[verifier::external_body]
#[verifier::reject_recursive_types(A)]
#[verifier::reject_recursive_types(T)]
#[verifier::reject_recursive_types(IDX)]
pub struct ExKdTree<A: Copy + Default, T: Copy + Default, const K: usize, const B: usize, IDX>(
    kiddo::fixed::kdtree::KdTree<A, T, K, B, IDX>,
);

/// `fixed::FixedU64`, the type of the tree's coordinates.
#[verifier::external_type_specification]
#[verifier::external_body]
#[verifier::reject_recursive_types(Frac)]
pub struct ExFixedU64<Frac>(fixed::FixedU64<Frac>);

/// `fixed::types::extra::U0`, the type-level count of no fractional bits.
#[verifier::external_type_specification]
#[verifier::external_body]
pub struct ExUnsignedZero(fixed::types::extra::U0);

/// The items that a tree holds: each (point, key) pair as often as it was
/// added and not removed since.
pub uninterp spec fn tree_contents(tree: GridTree) -> Contents;

/// The number of buckets (leaf nodes) that a tree has made so far. A tree
/// starts with one, makes one more whenever it splits a full bucket, and
/// frees none.
pub uninterp spec fn tree_buckets(tree: GridTree) -> nat;

/// The coordinate of a point on one of the three axes.
pub open spec fn axis_coord(p: (u64, u64, u64), axis: int) -> u64 {
    if axis == 0 {
        p.0
    } else if axis == 1 {
        p.1
    } else {
        p.2
    }
}

/// How many stored items have the coordinate `v` on `axis`.
pub open spec fn axis_load(c: Contents, axis: int, v: u64) -> nat {
    c.filter(|e: Item| axis_coord(e.0, axis) == v).len()
}

/// No coordinate is shared by more stored items than the tree can split.
pub open spec fn evenly_spread(c: Contents) -> bool {
    forall|axis: int, v: u64|
        0 <= axis < 3 ==> #[trigger] axis_load(c, axis, v) <= AXIS_SHARE_LIMIT
}

/// Every stored point lies within the grid.
pub open spec fn all_in_grid(c: Contents) -> bool {
    forall|e: Item| #[trigger]
        c.contains(e) ==> e.0.0 <= GRID_SPAN && e.0.1 <= GRID_SPAN && e.0.2 <= GRID_SPAN
}

/// Among the stored items, one with the key `key` lies at the squared
/// distance `d` from `query`, and none lies nearer.
pub open spec fn is_nearest(c: Contents, query: (u64, u64, u64), d: u64, key: u64) -> bool {
    &&& exists|p: (u64, u64, u64)| #[trigger] c.contains((p, key)) && d == sq_dist(query, p)
    &&& forall|e: Item| #[trigger] c.contains(e) ==> d <= sq_dist(query, e.0)
}

/// `kiddo::fixed::kdtree::KdTree::new`: a tree that holds nothing, in its
/// first bucket.
#[verifier::external_body]
fn tree_new() -> (tree: GridTree)
    ensures
        tree_contents(tree) == Contents::empty(),
        tree_buckets(tree) == 1,
{
    kiddo::fixed::kdtree::KdTree::new()
}

/// `KdTree::size`: the number of items stored.
#[verifier::external_body]
fn tree_size(tree: &GridTree) -> (n: u64)
    ensures
        n == tree_contents(*tree).len(),
{
    tree.size()
}

/// `KdTree::add`: stores one more item, and makes at most one more bucket.
///
/// Where the bucket that the item belongs to is full, the tree first splits
/// its 32 items at their median on one axis, and moves the cut down so that
/// the items that share the median's coordinate stay on one side. As long as
/// no more than 16 items share a coordinate on an axis, the cut stays inside
/// the bucket. With more, the cut can reach the bucket's start; the tree
/// then looks for it further up, among items that it has not put in order,
/// which can leave items on the wrong side of the cut, where `remove` and
/// `nearest_one` no longer find them, and panics where all 32 items share
/// the coordinate. That path is left out here. Buckets are numbered with 31
/// bits, without a test for overflow.
#[verifier::external_body]
fn tree_add(tree: &mut GridTree, x: u64, y: u64, z: u64, key: u64)
    requires
        evenly_spread(tree_contents(*old(tree))),
        tree_buckets(*old(tree)) < BUCKET_LIMIT,
    ensures
        tree_contents(*final(tree)) == tree_contents(*old(tree)).insert(((x, y, z), key)),
        tree_buckets(*final(tree)) <= tree_buckets(*old(tree)) + 1,
{
    let at = [GridAxis::from_bits(x), GridAxis::from_bits(y), GridAxis::from_bits(z)];
    tree.add(&at, key)
}

/// `KdTree::remove`: takes out every stored copy of the item and returns how
/// many there were. The tree looks in the one bucket that the point belongs
/// to, which is where `add` has put every copy.
#[verifier::external_body]
fn tree_remove(tree: &mut GridTree, x: u64, y: u64, z: u64, key: u64) -> (n: usize)
    ensures
        n == tree_contents(*old(tree)).count(((x, y, z), key)),
        tree_contents(*final(tree)) == tree_contents(*old(tree)).update(((x, y, z), key), 0),
        tree_buckets(*final(tree)) == tree_buckets(*old(tree)),
{
    let at = [GridAxis::from_bits(x), GridAxis::from_bits(y), GridAxis::from_bits(z)];
    tree.remove(&at, key)
}

/// `KdTree::nearest_one` with `kiddo::fixed::distance::squared_euclidean`:
/// the squared distance to a stored point that no other stored point is
/// closer than, and the key stored with it. Which of several equally near
/// points is found is left open. On an empty tree the call gives a made-up
/// answer, so an empty tree is left out. Coordinates within the grid differ
/// by less than 2^26, so that the sums of three squares that the tree
/// compares fit its 64-bit numbers and are exact.
#[verifier::external_body]
fn tree_nearest(tree: &GridTree, x: u64, y: u64, z: u64) -> (found: (u64, u64))
    requires
        tree_contents(*tree).len() > 0,
        all_in_grid(tree_contents(*tree)),
        x <= GRID_SPAN,
        y <= GRID_SPAN,
        z <= GRID_SPAN,
    ensures
        is_nearest(tree_contents(*tree), (x, y, z), found.0, found.1),
{
    let at = [GridAxis::from_bits(x), GridAxis::from_bits(y), GridAxis::from_bits(z)];
    let (d, key) = tree.nearest_one(&at, &kiddo::fixed::distance::squared_euclidean);
    (d.to_bits(), key)
}

/// `k` copies of one item are `k` items.
proof fn lemma_repeats_len(e: Item, k: nat)
    ensures
        Contents::empty().update(e, k).len() == k,
    decreases k,
{
    broadcast use {group_multiset_axioms, lemma_update_same, lemma_update_different};

    if k == 0 {
        assert(Contents::empty().update(e, 0) =~= Contents::empty());
    } else {
        lemma_repeats_len(e, (k - 1) as nat);
        assert(Contents::empty().update(e, k) =~= Contents::empty().update(
            e,
            (k - 1) as nat,
        ).insert(e));
    }
}

/// One more item raises the load of its own coordinate by one, and no other.
pub proof fn lemma_axis_load_insert(c: Contents, e: Item, axis: int, v: u64)
    ensures
        axis_load(c.insert(e), axis, v) == axis_load(c, axis, v) + (if axis_coord(e.0, axis)
            == v {
            1nat
        } else {
            0nat
        }),
{
    broadcast use group_multiset_axioms;

    let f = |i: Item| axis_coord(i.0, axis) == v;
    if axis_coord(e.0, axis) == v {
        assert(c.insert(e).filter(f) =~= c.filter(f).insert(e));
    } else {
        assert(c.insert(e).filter(f) =~= c.filter(f));
    }
}

/// Taking out every copy of an item lowers the load of its own coordinate by
/// the number of copies, and no other.
pub proof fn lemma_axis_load_without(c: Contents, e: Item, axis: int, v: u64)
    ensures
        axis_load(c, axis, v) == axis_load(c.update(e, 0), axis, v) + (if axis_coord(e.0, axis)
            == v {
            c.count(e)
        } else {
            0nat
        }),
{
    broadcast use {group_multiset_axioms, lemma_update_same, lemma_update_different};

    let f = |i: Item| axis_coord(i.0, axis) == v;
    if axis_coord(e.0, axis) == v {
        let copies = Contents::empty().update(e, c.count(e));
        lemma_repeats_len(e, c.count(e));
        assert(c.filter(f) =~= c.update(e, 0).filter(f).add(copies));
    } else {
        assert(c.filter(f) =~= c.update(e, 0).filter(f));
    }
}

/// Nothing stored, no load.
pub proof fn lemma_axis_load_empty(axis: int, v: u64)
    ensures
        axis_load(Contents::empty(), axis, v) == 0,
{
    broadcast use group_multiset_axioms;

    let f = |i: Item| axis_coord(i.0, axis) == v;
    assert(Contents::empty().filter(f) =~= Contents::empty());
}

/// The load of a coordinate counts at least the copies of any one item there.
pub proof fn lemma_axis_load_covers(c: Contents, e: Item, axis: int)
    ensures
        c.count(e) <= axis_load(c, axis, axis_coord(e.0, axis)),
{
    broadcast use group_multiset_axioms;

    let v = axis_coord(e.0, axis);
    let f = |i: Item| axis_coord(i.0, axis) == v;
    assert(c.filter(f).count(e) == c.count(e));
}

/// Taking out every copy of an item lowers the number of items by the number
/// of copies.
proof fn lemma_len_without(c: Contents, e: Item)
    ensures
        c.len() == c.update(e, 0).len() + c.count(e),
{
    broadcast use {group_multiset_axioms, lemma_update_same, lemma_update_different};

    let copies = Contents::empty().update(e, c.count(e));
    lemma_repeats_len(e, c.count(e));
    assert(c =~= c.update(e, 0).add(copies));
}

/// The items on the values below `n` of an axis.
spec fn load_below(c: Contents, axis: int, n: int) -> nat {
    c.filter(|e: Item| axis_coord(e.0, axis) < n).len()
}

/// Where each value below `n` of an axis is shared by a full load of items,
/// the values below `n` hold `n` full loads.
proof fn lemma_load_below(c: Contents, axis: int, n: int)
    requires
        0 <= n <= GRID_SPAN + 1,
        forall|u: u64| u < n ==> #[trigger] axis_load(c, axis, u) >= AXIS_SHARE_LIMIT,
    ensures
        load_below(c, axis, n) >= AXIS_SHARE_LIMIT * n,
        load_below(c, axis, n) <= c.len(),
    decreases n,
{
    broadcast use group_multiset_axioms;

    let below = |e: Item| axis_coord(e.0, axis) < n;
    let others = |e: Item| !(axis_coord(e.0, axis) < n);
    assert(c =~= c.filter(below).add(c.filter(others)));
    if n > 0 {
        lemma_load_below(c, axis, n - 1);
        let v = (n - 1) as u64;
        let before = |e: Item| axis_coord(e.0, axis) < n - 1;
        let here = |e: Item| axis_coord(e.0, axis) == v;
        assert(c.filter(below) =~= c.filter(before).add(c.filter(here)));
        assert(axis_load(c, axis, v) >= AXIS_SHARE_LIMIT);
    }
}

/// The value `w` of an axis has room for one more item.
pub open spec fn has_room_at(c: Contents, axis: int, w: u64) -> bool {
    w <= GRID_SPAN && axis_load(c, axis, w) < AXIS_SHARE_LIMIT
}

/// No value of the grid nearer to `v` than `k` has room.
pub open spec fn crowded_within(c: Contents, axis: int, v: u64, k: int) -> bool {
    forall|u: u64|
        u <= GRID_SPAN && v - k < u < v + k ==> #[trigger] axis_load(c, axis, u)
            >= AXIS_SHARE_LIMIT
}

/// `w` is the value with room that is nearest to `v` on an axis: the one
/// above `v` where one above and one below are equally near.
pub open spec fn is_nearest_room(c: Contents, axis: int, v: u64, w: u64) -> bool {
    &&& has_room_at(c, axis, w)
    &&& w >= v ==> crowded_within(c, axis, v, w - v)
    &&& w < v ==> crowded_within(c, axis, v, v - w) && !has_room_at(
        c,
        axis,
        (v + (v - w)) as u64,
    )
}

/// Where a value has room itself, it is the nearest value with room.
pub proof fn lemma_room_at_the_value(c: Contents, axis: int, v: u64, w: u64)
    requires
        has_room_at(c, axis, v),
        is_nearest_room(c, axis, v, w),
    ensures
        w == v,
{
    if w != v {
        assert(axis_load(c, axis, v) >= AXIS_SHARE_LIMIT);
    }
}

/// The loads that a table of counters records for one axis are those of the
/// contents.
pub open spec fn loads_recorded(table: Map<u64, u64>, c: Contents, axis: int) -> bool {
    forall|v: u64| #[trigger]
        axis_load(c, axis, v) == (if table.contains_key(v) {
            table[v] as nat
        } else {
            0nat
        })
}

/// Adds one to the counter of `v`.
fn raise_load(table: &mut HashMap<u64, u64>, v: u64)
    requires
        old(table)@.contains_key(v) ==> old(table)@[v] < AXIS_SHARE_LIMIT,
    ensures
        final(table)@ == old(table)@.insert(
            v,
            if old(table)@.contains_key(v) {
                (old(table)@[v] + 1) as u64
            } else {
                1u64
            },
        ),
{
    broadcast use vstd::std_specs::hash::group_hash_axioms;

    let now: u64 = match table.get(&v) {
        Some(n) => *n + 1,
        None => 1,
    };
    table.insert(v, now);
}

/// Takes `n` from the counter of `v`.
fn lower_load(table: &mut HashMap<u64, u64>, v: u64, n: u64)
    requires
        n > 0 ==> old(table)@.contains_key(v) && n <= old(table)@[v],
    ensures
        n == 0 ==> final(table)@ == old(table)@,
        n > 0 ==> final(table)@ == old(table)@.insert(v, (old(table)@[v] - n) as u64),
{
    broadcast use vstd::std_specs::hash::group_hash_axioms;

    if n > 0 {
        let before: u64 = match table.get(&v) {
            Some(b) => *b,
            None => n,
        };
        table.insert(v, before - n);
    }
}

/// Reads the counter of `v`.
fn read_load(table: &HashMap<u64, u64>, v: u64) -> (n: u64)
    ensures
        n == (if table@.contains_key(v) {
            table@[v]
        } else {
            0u64
        }),
{
    broadcast use vstd::std_specs::hash::group_hash_axioms;

    match table.get(&v) {
        Some(n) => *n,
        None => 0,
    }
}

/// Finds the value with room that is nearest to `v` on an axis.
fn nearest_room(
    table: &HashMap<u64, u64>,
    Ghost(c): Ghost<Contents>,
    Ghost(axis): Ghost<int>,
    v: u64,
) -> (w: u64)
    requires
        loads_recorded(table@, c, axis),
        v <= GRID_SPAN,
        c.len() < AXIS_SHARE_LIMIT * (GRID_SPAN + 1),
    ensures
        is_nearest_room(c, axis, v, w),
{
    let mut k: u64 = 0;
    while k <= GRID_SPAN
        invariant
            loads_recorded(table@, c, axis),
            v <= GRID_SPAN,
            k <= GRID_SPAN + 1,
            crowded_within(c, axis, v, k as int),
        decreases GRID_SPAN + 1 - k,
    {
        if v + k <= GRID_SPAN && read_load(table, v + k) < AXIS_SHARE_LIMIT {
            return v + k;
        }
        if k <= v && read_load(table, v - k) < AXIS_SHARE_LIMIT {
            return v - k;
        }
        k = k + 1;
    }
    proof {
        assert forall|u: u64| u < GRID_SPAN + 1 implies #[trigger] axis_load(c, axis, u)
            >= AXIS_SHARE_LIMIT by {
            assert(u <= GRID_SPAN && v - k < u < v + k);
        }
        lemma_load_below(c, axis, GRID_SPAN + 1);
        assert(false);
    }
    v
}

/// A dynamic set of (point, key) pairs that answers which stored point is
/// nearest to a query point.
pub struct SpatialIndex {
    tree: GridTree,
    xs: HashMap<u64, u64>,
    ys: HashMap<u64, u64>,
    zs: HashMap<u64, u64>,
    inserted: u64,
}

impl View for SpatialIndex {
    type V = Contents;

    closed spec fn view(&self) -> Contents {
        tree_contents(self.tree)
    }
}

impl SpatialIndex {
    /// The index keeps the books that let it store and find points.
    pub closed spec fn wf(self) -> bool {
        &&& all_in_grid(self@)
        &&& evenly_spread(self@)
        &&& loads_recorded(self.xs@, self@, 0)
        &&& loads_recorded(self.ys@, self@, 1)
        &&& loads_recorded(self.zs@, self@, 2)
        &&& tree_buckets(self.tree) <= self.inserted + 1
        &&& self@.len() <= self.inserted
        &&& self.inserted <= INSERT_LIMIT
        &&& self@.len() == 0 ==> self.inserted == 0
    }

    /// How many insertions the index has taken since it last held nothing.
    pub closed spec fn insertions(self) -> nat {
        self.inserted as nat
    }

    /// The index can take one more pair at `point`: fewer than
    /// [`AXIS_SHARE_LIMIT`] stored points share each of its coordinates, and
    /// fewer than [`INSERT_LIMIT`] insertions were made.
    pub open spec fn has_room(self, point: Point) -> bool {
        &&& axis_load(self@, 0, point.x) < AXIS_SHARE_LIMIT
        &&& axis_load(self@, 1, point.y) < AXIS_SHARE_LIMIT
        &&& axis_load(self@, 2, point.z) < AXIS_SHARE_LIMIT
        &&& self.insertions() < INSERT_LIMIT
    }

    /// `place` is where a pair for `point` goes: on each axis the value with
    /// room that is nearest to the point's own, which is the point's own
    /// where that has room.
    pub open spec fn places(self, point: Point, place: Point) -> bool {
        &&& is_nearest_room(self@, 0, point.x, place.x)
        &&& is_nearest_room(self@, 1, point.y, place.y)
        &&& is_nearest_room(self@, 2, point.z, place.z)
    }

    /// What a well-formed index can be relied on for.
    pub proof fn lemma_wf(self)
        requires
            self.wf(),
        ensures
            all_in_grid(self@),
            evenly_spread(self@),
            self@.len() <= self.insertions() <= INSERT_LIMIT,
            self@.len() == 0 ==> self.insertions() == 0,
    {
    }

    /// An index that holds nothing.
    pub fn new() -> (index: SpatialIndex)
        ensures
            index.wf(),
            index@ == Contents::empty(),
            index.insertions() == 0,
    {
        let index = SpatialIndex {
            tree: tree_new(),
            xs: HashMap::new(),
            ys: HashMap::new(),
            zs: HashMap::new(),
            inserted: 0,
        };
        proof {
            broadcast use group_multiset_axioms;

            assert forall|axis: int, v: u64| #[trigger]
                axis_load(index@, axis, v) == 0 by {
                lemma_axis_load_empty(axis, v);
            }
        }
        index
    }

    /// The number of pairs stored.
    pub fn len(&self) -> (n: u64)
        ensures
            n == self@.len(),
    {
        tree_size(&self.tree)
    }

    /// Whether the index can take one more pair at `point`.
    pub fn can_insert(&self, point: &Point) -> (room: bool)
        requires
            self.wf(),
        ensures
            room == self.has_room(*point),
    {
        read_load(&self.xs, point.x) < AXIS_SHARE_LIMIT && read_load(&self.ys, point.y)
            < AXIS_SHARE_LIMIT && read_load(&self.zs, point.z) < AXIS_SHARE_LIMIT && self.inserted
            < INSERT_LIMIT
    }

    /// The place for a pair at `point`: the point itself where its
    /// coordinates have room, else the nearest grid point whose coordinates
    /// do. While insertions are left there is such a place.
    pub fn place_for(&self, point: &Point) -> (place: Point)
        requires
            self.wf(),
            point.wf(),
            self.insertions() < INSERT_LIMIT,
        ensures
            place.wf(),
            self.places(*point, place),
            self.has_room(place),
    {
        Point {
            x: nearest_room(&self.xs, Ghost(self@), Ghost(0), point.x),
            y: nearest_room(&self.ys, Ghost(self@), Ghost(1), point.y),
            z: nearest_room(&self.zs, Ghost(self@), Ghost(2), point.z),
        }
    }

    /// Adds the pair (`point`, `key`). Point values need not be unique.
    pub fn insert(&mut self, point: &Point, key: u64)
        requires
            old(self).wf(),
            point.wf(),
            old(self).has_room(*point),
        ensures
            final(self).wf(),
            final(self)@ == old(self)@.insert((point.coords(), key)),
            final(self).insertions() == old(self).insertions() + 1,
    {
        tree_add(&mut self.tree, point.x, point.y, point.z, key);
        raise_load(&mut self.xs, point.x);
        raise_load(&mut self.ys, point.y);
        raise_load(&mut self.zs, point.z);
        self.inserted = self.inserted + 1;
        proof {
            broadcast use group_multiset_axioms;

            let e: Item = (point.coords(), key);
            let before = old(self)@;
            lemma_insert_len(before, e);
            assert forall|axis: int, v: u64|
                #[trigger] axis_load(self@, axis, v) == axis_load(before, axis, v) + (
                if axis_coord(e.0, axis) == v {
                    1nat
                } else {
                    0nat
                }) by {
                lemma_axis_load_insert(before, e, axis, v);
            }
            assert(all_in_grid(self@)) by {
                assert forall|i: Item| #[trigger] self@.contains(i) implies i.0.0 <= GRID_SPAN
                    && i.0.1 <= GRID_SPAN && i.0.2 <= GRID_SPAN by {
                    if i != e {
                        assert(before.contains(i));
                    }
                }
            }
        }
    }

    /// Whether insertions are left to the index.
    pub fn has_insertions_left(&self) -> (left: bool)
        ensures
            left == (self.insertions() < INSERT_LIMIT),
    {
        self.inserted < INSERT_LIMIT
    }

    /// Starts an index that holds nothing on a new tree, with every
    /// insertion left.
    fn start_afresh(&mut self)
        requires
            old(self)@.len() == 0,
        ensures
            final(self).wf(),
            final(self)@ == old(self)@,
            final(self).insertions() == 0,
    {
        self.tree = tree_new();
        self.xs = HashMap::new();
        self.ys = HashMap::new();
        self.zs = HashMap::new();
        self.inserted = 0;
        proof {
            broadcast use group_multiset_axioms;

            lemma_multiset_empty_len(old(self)@);
            assert(old(self)@ =~= Contents::empty());
            assert forall|axis: int, v: u64| #[trigger] axis_load(self@, axis, v) == 0 by {
                lemma_axis_load_empty(axis, v);
            }
        }
    }

    /// Removes the pair (`point`, `key`), and says whether it was there.
    /// The point is the one that the key was inserted with. An index that
    /// holds nothing afterwards has every insertion left again.
    pub fn remove(&mut self, point: &Point, key: u64) -> (found: bool)
        requires
            old(self).wf(),
        ensures
            final(self).wf(),
            found == old(self)@.contains((point.coords(), key)),
            final(self)@ == old(self)@.update((point.coords(), key), 0),
            final(self).insertions() == (if final(self)@.len() == 0 {
                0
            } else {
                old(self).insertions()
            }),
    {
        let ghost e: Item = (point.coords(), key);
        let ghost before = old(self)@;
        proof {
            lemma_axis_load_covers(before, e, 0);
            lemma_axis_load_covers(before, e, 1);
            lemma_axis_load_covers(before, e, 2);
        }
        let n: usize = tree_remove(&mut self.tree, point.x, point.y, point.z, key);
        let gone: u64 = n as u64;
        lower_load(&mut self.xs, point.x, gone);
        lower_load(&mut self.ys, point.y, gone);
        lower_load(&mut self.zs, point.z, gone);
        proof {
            broadcast use {group_multiset_axioms, lemma_update_same, lemma_update_different};

            lemma_len_without(before, e);
            assert forall|axis: int, v: u64|
                axis_load(before, axis, v) == #[trigger] axis_load(self@, axis, v) + (
                if axis_coord(e.0, axis) == v {
                    before.count(e)
                } else {
                    0nat
                }) by {
                lemma_axis_load_without(before, e, axis, v);
            }
            assert(all_in_grid(self@)) by {
                assert forall|i: Item| #[trigger] self@.contains(i) implies i.0.0 <= GRID_SPAN
                    && i.0.1 <= GRID_SPAN && i.0.2 <= GRID_SPAN by {
                    if i != e {
                        assert(before.contains(i));
                    }
                }
            }
        }
        if tree_size(&self.tree) == 0 {
            self.start_afresh();
        }
        n > 0
    }

    /// The stored pair nearest to `query`: its squared distance and its key.
    /// Nothing if the index is empty. Which of several equally near pairs is
    /// found is not determined.
    pub fn nearest(&self, query: &Point) -> (found: Option<(u64, u64)>)
        requires
            self.wf(),
            query.wf(),
        ensures
            found is None <==> self@.len() == 0,
            found matches Some(near) ==> is_nearest(self@, query.coords(), near.0, near.1),
    {
        if tree_size(&self.tree) == 0 {
            None
        } else {
            Some(tree_nearest(&self.tree, query.x, query.y, query.z))
        }
    }
}

} // verus!
