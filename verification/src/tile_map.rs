//! Tile map generation by wave-function collapse: every open cell keeps the tiles that
//! fit its placed neighbours, and the most constrained cell is settled first, at random.
use vstd::prelude::*;
use crate::grid::GridPoint;
use crate::protocol::TileState;
use crate::tile_sets::{
    get_tile_by_filename, layer_tiles, load_default_superposition, load_terrain_superposition_names,
    load_terrain_superposition_tiles, terrain_index,
};
use crate::tiles::{
    TileCollider, all_weighted, filter_superposition, fitting, joint_allows, lemma_fitting, lemma_fitting_complete,
    lemma_fitting_weighted, lemma_view_fits, tile_fits, tile_view, view_fits, Tile, TileJoint,
};

verus! {

/// A cell of the map: the tiles it may still take, how many there are, and its tile
/// once placed. An entropy of 0 means the cell is settled.
#[derive(Debug)]
pub struct Slot {
    pub point: GridPoint,
    pub superposition: Vec<Tile>,
    pub entropy: usize,
    pub tile: Option<Tile>,
}

impl Slot {
    /// An empty cell at `point`.
    pub fn new(point: GridPoint) -> (s: Slot)
        ensures s.point == point, s.superposition@.len() == 0, s.entropy == 0, s.tile is None,
    {
        let tiles: Vec<Tile> = Vec::new();
        let entropy = tiles.len();
        Slot { point, superposition: tiles, entropy, tile: None }
    }

    /// The slot keeps the count of its tiles, each of which can be drawn, and an open slot
    /// lies off the edge of the `i32` range, so that all its neighbours have coordinates.
    pub open spec fn wf(&self) -> bool {
        &&& self.entropy == self.superposition@.len()
        &&& all_weighted(self.superposition@)
        &&& self.entropy > 0 ==> {
            &&& i32::MIN < self.point.x < i32::MAX
            &&& i32::MIN < self.point.y < i32::MAX
            &&& i32::MIN < self.point.z < i32::MAX
        }
    }
}

/// Every slot is well formed and no two slots share a point.
pub open spec fn map_wf(m: Seq<Slot>) -> bool {
    &&& forall|i: int| 0 <= i < m.len() ==> #[trigger] m[i].wf()
    &&& forall|i: int, j: int| 0 <= i < m.len() && 0 <= j < m.len() && i != j ==> m[i].point != m[j].point
}

/// The position of the slot at `p`, or `m.len()` when there is none.
pub open spec fn slot_index(m: Seq<Slot>, p: GridPoint) -> int
    decreases m.len(),
{
    if m.len() == 0 {
        0
    } else if m[0].point == p {
        0
    } else {
        1 + slot_index(m.drop_first(), p)
    }
}

/// The tile placed at `p`, if any.
pub open spec fn placed(m: Seq<Slot>, p: GridPoint) -> Option<Tile> {
    let i = slot_index(m, p);
    if i < m.len() { m[i].tile } else { None }
}

/// What the neighbour at `p` offers on its side `face`: anything, when no tile stands there.
pub open spec fn side_of(m: Seq<Slot>, p: GridPoint, face: int) -> TileJoint {
    match placed(m, p) {
        Some(t) => t.joints@[face],
        None => TileJoint::All,
    }
}

/// The six constraints on the cell at `p` (up, down, left, right, front, back): each is
/// the facing side of the tile placed next to it.
pub open spec fn constraints(m: Seq<Slot>, p: GridPoint) -> Seq<TileJoint> {
    seq![
        side_of(m, GridPoint { x: p.x, y: (p.y + 1) as i32, z: p.z }, 1),
        side_of(m, GridPoint { x: p.x, y: (p.y - 1) as i32, z: p.z }, 0),
        side_of(m, GridPoint { x: (p.x - 1) as i32, y: p.y, z: p.z }, 3),
        side_of(m, GridPoint { x: (p.x + 1) as i32, y: p.y, z: p.z }, 2),
        side_of(m, GridPoint { x: p.x, y: p.y, z: (p.z + 1) as i32 }, 5),
        side_of(m, GridPoint { x: p.x, y: p.y, z: (p.z - 1) as i32 }, 4),
    ]
}

/// The tiles the slot `i` may still take, given the tiles placed around it.
pub open spec fn options(m: Seq<Slot>, i: int) -> Seq<Tile> {
    fitting(m[i].superposition@, constraints(m, m[i].point))
}

proof fn lemma_slot_index(m: Seq<Slot>, p: GridPoint)
    ensures
        0 <= slot_index(m, p) <= m.len(),
        slot_index(m, p) < m.len() ==> m[slot_index(m, p)].point == p,
        forall|j: int| 0 <= j < slot_index(m, p) ==> m[j].point != p,
    decreases m.len(),
{
    if m.len() > 0 && m[0].point != p {
        let t = m.drop_first();
        lemma_slot_index(t, p);
        assert forall|j: int| 0 <= j < slot_index(m, p) implies m[j].point != p by {
            if j > 0 { assert(m[j] == t[j - 1]); }
        }
    }
}

/// Replacing a slot by one with the same point and tile leaves every constraint as it was.
proof fn lemma_constraints_keep(m: Seq<Slot>, i: int, s: Slot, p: GridPoint)
    requires 0 <= i < m.len(), s.point == m[i].point, s.tile == m[i].tile,
    ensures constraints(m.update(i, s), p) == constraints(m, p),
{
    let m2 = m.update(i, s);
    assert forall|q: GridPoint| placed(m2, q) == placed(m, q) by {
        lemma_slot_index_keep(m, i, s, q);
        lemma_slot_index(m, q);
        let k = slot_index(m, q);
        if k < m.len() {
            assert(m2[k].tile == m[k].tile);
        }
    }
    assert(constraints(m2, p) =~= constraints(m, p));
}

proof fn lemma_slot_index_keep(m: Seq<Slot>, i: int, s: Slot, q: GridPoint)
    requires 0 <= i < m.len(), s.point == m[i].point,
    ensures slot_index(m.update(i, s), q) == slot_index(m, q),
    decreases m.len(),
{
    let m2 = m.update(i, s);
    if m[0].point != q {
        if i > 0 {
            assert(m2.drop_first() =~= m.drop_first().update(i - 1, s));
            lemma_slot_index_keep(m.drop_first(), i - 1, s, q);
        } else {
            assert(m2.drop_first() =~= m.drop_first());
        }
    }
}

/// Looks up the slot at `p`.
pub fn find_slot(m: &Vec<Slot>, p: GridPoint) -> (res: Option<usize>)
    ensures
        match res {
            Some(i) => i == slot_index(m@, p) && i < m@.len(),
            None => slot_index(m@, p) == m@.len(),
        },
{
    proof { lemma_slot_index(m@, p); }
    let mut i: usize = 0;
    while i < m.len()
        invariant i <= m@.len(), forall|j: int| 0 <= j < i ==> m@[j].point != p,
            0 <= slot_index(m@, p) <= m@.len(),
            slot_index(m@, p) < m@.len() ==> m@[slot_index(m@, p)].point == p,
            forall|j: int| 0 <= j < slot_index(m@, p) ==> m@[j].point != p,
        decreases m@.len() - i,
    {
        if m[i].point == p {
            return Some(i);
        }
        i = i + 1;
    }
    None
}

fn side(m: &Vec<Slot>, p: GridPoint, face: usize) -> (j: TileJoint)
    requires face < 6,
    ensures j == side_of(m@, p, face as int),
{
    match find_slot(m, p) {
        Some(i) => match &m[i].tile {
            Some(t) => t.joints[face].duplicate(),
            None => TileJoint::All,
        },
        None => TileJoint::All,
    }
}

/// The six constraints on the cell at `p`, read from the tiles placed around it.
pub fn neighbour_joints(m: &Vec<Slot>, p: GridPoint) -> (jl: [TileJoint; 6])
    requires
        i32::MIN < p.x < i32::MAX, i32::MIN < p.y < i32::MAX, i32::MIN < p.z < i32::MAX,
    ensures jl@ == constraints(m@, p),
{
    let jl = [
        side(m, GridPoint { x: p.x, y: p.y + 1, z: p.z }, 1),
        side(m, GridPoint { x: p.x, y: p.y - 1, z: p.z }, 0),
        side(m, GridPoint { x: p.x - 1, y: p.y, z: p.z }, 3),
        side(m, GridPoint { x: p.x + 1, y: p.y, z: p.z }, 2),
        side(m, GridPoint { x: p.x, y: p.y, z: p.z + 1 }, 5),
        side(m, GridPoint { x: p.x, y: p.y, z: p.z - 1 }, 4),
    ];
    assert(jl@ =~= constraints(m@, p));
    jl
}

/// Two slots stand at the same point with the same tile.
pub open spec fn same_cell(a: Slot, b: Slot) -> bool {
    a.point == b.point && a.tile == b.tile
}

/// Two maps with the same points and tiles, slot by slot, put the same constraints on every cell.
proof fn lemma_same_layout(m1: Seq<Slot>, m2: Seq<Slot>, p: GridPoint)
    requires
        m1.len() == m2.len(),
        forall|j: int| 0 <= j < m1.len() ==> #[trigger] same_cell(m1[j], m2[j]),
    ensures constraints(m1, p) == constraints(m2, p),
{
    assert forall|q: GridPoint| #[trigger] placed(m1, q) == placed(m2, q) by {
        lemma_slot_index_layout(m1, m2, q);
        lemma_slot_index(m1, q);
        let k = slot_index(m1, q);
        if k < m1.len() {
            assert(same_cell(m1[k], m2[k]));
        }
    }
    assert(constraints(m1, p) =~= constraints(m2, p));
}

proof fn lemma_slot_index_layout(m1: Seq<Slot>, m2: Seq<Slot>, q: GridPoint)
    requires
        m1.len() == m2.len(),
        forall|j: int| 0 <= j < m1.len() ==> #[trigger] same_cell(m1[j], m2[j]),
    ensures slot_index(m1, q) == slot_index(m2, q),
    decreases m1.len(),
{
    if m1.len() > 0 {
        assert(same_cell(m1[0], m2[0]));
        if m1[0].point != q {
            let t1 = m1.drop_first();
            let t2 = m2.drop_first();
            assert forall|j: int| 0 <= j < t1.len() implies #[trigger] same_cell(t1[j], t2[j]) by {
                assert(same_cell(m1[j + 1], m2[j + 1]));
            }
            lemma_slot_index_layout(t1, t2, q);
        }
    }
}

/// A map keeps its shape when its slots keep their points and each stays well formed.
proof fn lemma_wf_keep(old: Seq<Slot>, new: Seq<Slot>)
    requires
        map_wf(old), old.len() == new.len(),
        forall|j: int| 0 <= j < new.len() ==> #[trigger] new[j].point == old[j].point && new[j].wf(),
    ensures map_wf(new),
{
    assert forall|i: int| 0 <= i < new.len() implies #[trigger] new[i].wf() by {
        assert(new[i].point == old[i].point && new[i].wf());
    }
    assert forall|i: int, j: int| 0 <= i < new.len() && 0 <= j < new.len() && i != j implies new[i].point != new[j].point by {
        assert(new[i].point == old[i].point && new[i].wf());
        assert(new[j].point == old[j].point && new[j].wf());
    }
}

/// The number of open cells (positive entropy).
pub open spec fn unsettled(m: Seq<Slot>) -> nat
    decreases m.len(),
{
    if m.len() == 0 {
        0
    } else {
        (if m.last().entropy > 0 { 1nat } else { 0nat }) + unsettled(m.drop_last())
    }
}

proof fn lemma_unsettled_shrinks(m1: Seq<Slot>, m2: Seq<Slot>, k: int)
    requires
        m1.len() == m2.len(),
        forall|j: int| 0 <= j < m1.len() && #[trigger] m2[j].entropy > 0 ==> m1[j].entropy > 0,
    ensures
        unsettled(m2) <= unsettled(m1),
        0 <= k < m1.len() && m1[k].entropy > 0 && m2[k].entropy == 0 ==> unsettled(m2) < unsettled(m1),
    decreases m1.len(),
{
    if m1.len() > 0 {
        let t1 = m1.drop_last();
        let t2 = m2.drop_last();
        assert forall|j: int| 0 <= j < t1.len() && #[trigger] t2[j].entropy > 0 implies t1[j].entropy > 0 by {
            assert(m2[j].entropy > 0);
        }
        assert(m2.last().entropy > 0 ==> m1.last().entropy > 0) by {
            assert(m2[m2.len() - 1].entropy > 0 ==> m1[m1.len() - 1].entropy > 0);
        }
        lemma_unsettled_shrinks(t1, t2, k);
    }
}

/// The tile with each candidate repeated as many times as its weight, in order.
pub open spec fn weighted_list(sp: Seq<Tile>) -> Seq<Tile>
    decreases sp.len(),
{
    if sp.len() == 0 {
        Seq::<Tile>::empty()
    } else {
        Seq::new(sp[0].rng_seed as nat, |_k: int| sp[0]) + weighted_list(sp.drop_first())
    }
}

/// The sum of the weights.
pub open spec fn total_weight(sp: Seq<Tile>) -> nat
    decreases sp.len(),
{
    if sp.len() == 0 { 0 } else { sp[0].rng_seed as nat + total_weight(sp.drop_first()) }
}

proof fn lemma_weighted_list(sp: Seq<Tile>)
    ensures
        weighted_list(sp).len() == total_weight(sp),
        forall|r: int| 0 <= r < total_weight(sp) ==> sp.contains(#[trigger] weighted_list(sp)[r]),
    decreases sp.len(),
{
    if sp.len() > 0 {
        let t = sp.drop_first();
        lemma_weighted_list(t);
        let w = weighted_list(sp);
        let head = Seq::new(sp[0].rng_seed as nat, |_k: int| sp[0]);
        assert forall|r: int| 0 <= r < total_weight(sp) implies sp.contains(#[trigger] w[r]) by {
            if r < sp[0].rng_seed {
                assert(w[r] == head[r]);
                assert(sp[0] == w[r]);
            } else {
                assert(w[r] == weighted_list(t)[r - sp[0].rng_seed]);
                let j = choose|j: int| 0 <= j < t.len() && t[j] == w[r];
                assert(sp[j + 1] == t[j]);
            }
        }
    }
}

/// The sum of the weights of `sp`.
pub fn total_weight_of(sp: &Vec<Tile>) -> (total: u128)
    ensures total == total_weight(sp@),
{
    let mut acc: u128 = 0;
    let n = sp.len();
    let mut i: usize = n;
    assert(sp@.skip(i as int) =~= Seq::<Tile>::empty());
    while i > 0
        invariant
            i <= sp@.len(), n == sp@.len(), acc == total_weight(sp@.skip(i as int)),
            acc <= 255 * (sp@.len() - i),
        decreases i,
    {
        i = i - 1;
        assert(sp@.skip(i as int).drop_first() =~= sp@.skip(i + 1));
        assert(sp@.skip(i as int)[0] == sp@[i as int]);
        assert(acc + 255 <= 255 * (sp@.len() - i)) by (nonlinear_arith)
            requires acc <= 255 * (sp@.len() - (i + 1)), i < sp@.len();
        assert(255 * (sp@.len() - i) <= 255 * (usize::MAX as int)) by (nonlinear_arith)
            requires sp@.len() - i <= n, n <= usize::MAX;
        acc = acc + sp[i].rng_seed as u128;
    }
    assert(sp@.skip(0) =~= sp@);
    acc
}

/// The `r`-th entry of the list in which each candidate appears as often as its weight.
pub fn weighted_pick(sp: &Vec<Tile>, r: u128) -> (t: Tile)
    requires r < total_weight(sp@),
    ensures t == weighted_list(sp@)[r as int],
{
    let mut i: usize = 0;
    let mut rem: u128 = r;
    assert(sp@.skip(0) =~= sp@);
    while i < sp.len()
        invariant
            i <= sp@.len(), rem < total_weight(sp@.skip(i as int)),
            weighted_list(sp@)[r as int] == weighted_list(sp@.skip(i as int))[rem as int],
        decreases sp@.len() - i,
    {
        let ghost s = sp@.skip(i as int);
        assert(s.drop_first() =~= sp@.skip(i + 1));
        assert(s[0] == sp@[i as int]);
        proof { lemma_weighted_list(s.drop_first()); }
        let w = sp[i].rng_seed as u128;
        if rem < w {
            return sp[i].duplicate();
        }
        rem = rem - w;
        i = i + 1;
    }
    proof {
        assert(sp@.skip(i as int) =~= Seq::<Tile>::empty());
    }
    sp[0].duplicate()
}

/// Draws a number below `bound` with `rand::thread_rng().gen_range(0..bound)`.
/// Claimed: the number is below `bound`; which one it is rests on chance.
#[verifier::external_body]
fn random_below(bound: u128) -> (r: u128)
    requires bound > 0,
    ensures r < bound,
{
    rand::Rng::gen_range(&mut rand::thread_rng(), 0..bound)
}

fn duplicate_tile(t: &Option<Tile>) -> (r: Option<Tile>)
    ensures r == *t,
{
    match t {
        Some(x) => Some(x.duplicate()),
        None => None,
    }
}

/// One pass over the open cells: a cell left with no fitting tile is settled empty, and the
/// open cell with the fewest fitting tiles (the first of them) is returned with those tiles.
pub fn refresh(map: &mut Vec<Slot>) -> (best: Option<(usize, Vec<Tile>)>)
    requires map_wf(old(map)@),
    ensures
        final(map)@.len() == old(map)@.len(),
        forall|i: int| 0 <= i < old(map)@.len() ==> {
            let o = #[trigger] old(map)@[i];
            let n = final(map)@[i];
            if o.entropy > 0 && options(old(map)@, i).len() == 0 {
                n.point == o.point && n.tile == o.tile && n.entropy == 0 && n.superposition@.len() == 0
            } else {
                n == o
            }
        },
        match best {
            Some((b, f)) => {
                &&& b < old(map)@.len()
                &&& old(map)@[b as int].entropy > 0
                &&& f@ == options(old(map)@, b as int)
                &&& f@.len() > 0
                &&& forall|j: int| 0 <= j < old(map)@.len() && #[trigger] old(map)@[j].entropy > 0
                    && options(old(map)@, j).len() > 0 ==> f@.len() <= options(old(map)@, j).len()
                        && (j < b ==> f@.len() < options(old(map)@, j).len())
            },
            None => forall|j: int| 0 <= j < old(map)@.len() && #[trigger] old(map)@[j].entropy > 0
                ==> options(old(map)@, j).len() == 0,
        },
{
    let ghost m0 = map@;
    let mut best_idx: Option<usize> = None;
    let mut best_tiles: Vec<Tile> = Vec::new();
    let mut best_len: usize = usize::MAX;
    let mut i: usize = 0;
    while i < map.len()
        invariant
            i <= map@.len(), map@.len() == m0.len(), map_wf(m0),
            forall|j: int| 0 <= j < m0.len() ==> #[trigger] same_cell(map@[j], m0[j]),
            forall|j: int| i <= j < m0.len() ==> #[trigger] map@[j] == m0[j],
            forall|j: int| 0 <= j < i ==> {
                let o = #[trigger] m0[j];
                let n = map@[j];
                if o.entropy > 0 && options(m0, j).len() == 0 {
                    n.point == o.point && n.tile == o.tile && n.entropy == 0 && n.superposition@.len() == 0
                } else {
                    n == o
                }
            },
            match best_idx {
                Some(b) => {
                    &&& b < i
                    &&& m0[b as int].entropy > 0
                    &&& best_tiles@ == options(m0, b as int)
                    &&& best_tiles@.len() > 0
                    &&& best_len == best_tiles@.len()
                    &&& forall|j: int| 0 <= j < i && #[trigger] m0[j].entropy > 0 && options(m0, j).len() > 0
                        ==> best_len <= options(m0, j).len() && (j < b ==> best_len < options(m0, j).len())
                },
                None => forall|j: int| 0 <= j < i && #[trigger] m0[j].entropy > 0 ==> options(m0, j).len() == 0,
            },
        decreases m0.len() - i,
    {
        if map[i].entropy > 0 {
            assert(m0[i as int].wf());
            let jl = neighbour_joints(map, map[i].point);
            proof { lemma_same_layout(map@, m0, m0[i as int].point); }
            let f = filter_superposition(&map[i].superposition, &jl);
            assert(f@ == options(m0, i as int));
            if f.len() == 0 {
                let emptied = Slot {
                    point: map[i].point,
                    superposition: Vec::new(),
                    entropy: 0,
                    tile: duplicate_tile(&map[i].tile),
                };
                map.set(i, emptied);
            } else if best_idx.is_none() || f.len() < best_len {
                best_len = f.len();
                best_idx = Some(i);
                best_tiles = f;
            }
        }
        i = i + 1;
    }
    match best_idx {
        Some(b) => Some((b, best_tiles)),
        None => None,
    }
}

/// Settles the cell `b` with the `r`-th entry of the weighted list of `tiles`.
fn settle(map: &mut Vec<Slot>, b: usize, tiles: &Vec<Tile>, r: u128)
    requires b < old(map)@.len(), r < total_weight(tiles@),
    ensures
        final(map)@ == old(map)@.update(b as int, final(map)@[b as int]),
        final(map)@[b as int].point == old(map)@[b as int].point,
        final(map)@[b as int].entropy == 0,
        final(map)@[b as int].superposition@.len() == 0,
        final(map)@[b as int].tile == Some(weighted_list(tiles@)[r as int]),
{
    let t = weighted_pick(tiles, r);
    let s = Slot { point: map[b].point, superposition: Vec::new(), entropy: 0, tile: Some(t) };
    map.set(b, s);
}

/// How a slot `n` may follow the slot `o` it replaced while the map is settled: at the same
/// point; a settled slot stays; an open one stays or is settled; its tile is the former one
/// or one of its candidates.
pub open spec fn follows(o: Slot, n: Slot) -> bool {
    &&& n.point == o.point
    &&& o.entropy == 0 ==> n == o
    &&& n.entropy > 0 ==> n == o
    &&& n.tile == o.tile || (n.tile matches Some(t) && o.superposition@.contains(t))
}

/// One step of the settling: a pass over the open cells (see `refresh`), then the most
/// constrained open cell (the first of them) takes, at random and by weight, one of the
/// tiles that fit its placed neighbours. Returns that cell, or `None` when no open cell is
/// left.
pub fn collapse_step(map: &mut Vec<Slot>) -> (settled: Option<usize>)
    requires map_wf(old(map)@),
    ensures
        map_wf(final(map)@),
        final(map)@.len() == old(map)@.len(),
        forall|i: int| 0 <= i < old(map)@.len() ==> follows(old(map)@[i], #[trigger] final(map)@[i]),
        forall|i: int| 0 <= i < old(map)@.len() && settled != Some(i as usize) ==> {
            let o = #[trigger] old(map)@[i];
            let n = final(map)@[i];
            if o.entropy > 0 && options(old(map)@, i).len() == 0 {
                n.point == o.point && n.tile == o.tile && n.entropy == 0 && n.superposition@.len() == 0
            } else {
                n == o
            }
        },
        match settled {
            None => {
                &&& forall|i: int| 0 <= i < final(map)@.len() ==> (#[trigger] final(map)@[i]).entropy == 0
                &&& forall|j: int| 0 <= j < old(map)@.len() && #[trigger] old(map)@[j].entropy > 0
                    ==> options(old(map)@, j).len() == 0
            },
            Some(b) => {
                &&& b < old(map)@.len()
                &&& old(map)@[b as int].entropy > 0
                &&& final(map)@[b as int].entropy == 0
                &&& final(map)@[b as int].superposition@.len() == 0
                &&& final(map)@[b as int].tile matches Some(t)
                    && options(old(map)@, b as int).contains(t)
                    && tile_fits(constraints(old(map)@, old(map)@[b as int].point), t)
                &&& forall|j: int| 0 <= j < old(map)@.len() && #[trigger] old(map)@[j].entropy > 0
                    && options(old(map)@, j).len() > 0 ==> options(old(map)@, b as int).len() <= options(old(map)@, j).len()
                        && (j < b ==> options(old(map)@, b as int).len() < options(old(map)@, j).len())
                &&& unsettled(final(map)@) < unsettled(old(map)@)
            },
        },
{
    let ghost before = map@;
    let best = refresh(map);
    let ghost mid = map@;
    assert forall|j: int| 0 <= j < mid.len() && #[trigger] mid[j].entropy > 0 implies before[j].entropy > 0 by {
        assert(before[j].wf());
    }
    match best {
        None => {
            assert forall|i: int| 0 <= i < map@.len() implies (#[trigger] map@[i]).entropy == 0 by {
                assert(before[i].wf());
            }
            assert forall|j: int| 0 <= j < map@.len() implies #[trigger] map@[j].point == before[j].point && map@[j].wf() by {
                assert(before[j].wf());
            }
            proof { lemma_wf_keep(before, map@); }
            assert forall|i: int| 0 <= i < before.len() implies follows(before[i], #[trigger] map@[i]) by {
                assert(before[i].wf());
            }
            None
        },
        Some((b, tiles)) => {
            proof {
                assert(before[b as int].wf());
                lemma_fitting(before[b as int].superposition@, constraints(before, before[b as int].point));
                lemma_fitting_weighted(before[b as int].superposition@, constraints(before, before[b as int].point));
                lemma_weighted_list(tiles@);
                lemma_total_positive(tiles@);
            }
            let total = total_weight_of(&tiles);
            let r = random_below(total);
            settle(map, b, &tiles, r);
            proof {
                let t = weighted_list(tiles@)[r as int];
                assert(tiles@.contains(t));
                let k = choose|k: int| 0 <= k < tiles@.len() && tiles@[k] == t;
                assert(before[b as int].superposition@.contains(tiles@[k]));
                assert(tile_fits(constraints(before, before[b as int].point), tiles@[k]));
                assert forall|j: int| 0 <= j < map@.len() && #[trigger] map@[j].entropy > 0 implies before[j].entropy > 0 by {
                    if j != b { assert(map@[j] == mid[j]); }
                }
                lemma_unsettled_shrinks(before, map@, b as int);
                assert forall|j: int| 0 <= j < map@.len() implies #[trigger] map@[j].point == before[j].point && map@[j].wf() by {
                    assert(before[j].wf());
                    if j != b { assert(map@[j] == mid[j]); }
                }
                lemma_wf_keep(before, map@);
                assert forall|i: int| 0 <= i < before.len() implies follows(before[i], #[trigger] map@[i]) by {
                    if i != b { assert(map@[i] == mid[i]); }
                }
            }
            Some(b)
        },
    }
}

/// The cell above `p`.
pub open spec fn up(p: GridPoint) -> GridPoint {
    GridPoint { x: p.x, y: (p.y + 1) as i32, z: p.z }
}

/// The cell to the right of `p`.
pub open spec fn right(p: GridPoint) -> GridPoint {
    GridPoint { x: (p.x + 1) as i32, y: p.y, z: p.z }
}

/// The cell in front of `p` (one layer up).
pub open spec fn front(p: GridPoint) -> GridPoint {
    GridPoint { x: p.x, y: p.y, z: (p.z + 1) as i32 }
}

/// Two facing sides accept each other: the side of the tile placed later accepts the side
/// of the tile that was there before it, whichever came first.
pub open spec fn sides_accept(x: TileJoint, y: TileJoint) -> bool {
    joint_allows(x, y) || joint_allows(y, x)
}

/// Tiles `a` at `p` and `b` at `q` agree on the sides they turn to each other, when `q` is
/// above, to the right of, or in front of `p`.
pub open spec fn faces_fit(p: GridPoint, a: Tile, q: GridPoint, b: Tile) -> bool {
    &&& q == up(p) ==> sides_accept(a.joints@[0], b.joints@[1])
    &&& q == right(p) ==> sides_accept(a.joints@[3], b.joints@[2])
    &&& q == front(p) ==> sides_accept(a.joints@[4], b.joints@[5])
}

/// Any two tiled cells of `m`, one of them among the cells `here`, agree on their facing
/// sides.
pub open spec fn pairs_fit(m: Seq<Slot>, here: spec_fn(int) -> bool) -> bool {
    forall|i: int, j: int|
        #![trigger m[i], m[j]]
        0 <= i < m.len() && 0 <= j < m.len() && (here(i) || here(j)) && m[i].tile is Some && m[j].tile is Some
            ==> faces_fit(m[i].point, m[i].tile.unwrap(), m[j].point, m[j].tile.unwrap())
}

/// Every cell that holds a tile is settled.
pub open spec fn tiles_settled(m: Seq<Slot>) -> bool {
    forall|i: int| 0 <= i < m.len() && (#[trigger] m[i]).tile is Some ==> m[i].entropy == 0
}

/// Every cell open in `m0` that ended in `m` settled without a tile has no candidate that
/// fits the tiles placed around it in `m`.
pub open spec fn dead_cells_hold(m0: Seq<Slot>, m: Seq<Slot>) -> bool {
    forall|i: int|
        0 <= i < m.len() && i < m0.len() && m0[i].entropy > 0 && (#[trigger] m[i]).entropy == 0 && m[i].tile is None
            ==> fitting(m0[i].superposition@, constraints(m, m[i].point)).len() == 0
}

/// The cell `i` is the one a step settled.
pub open spec fn is_settled(settled: Option<usize>, i: int) -> bool {
    settled matches Some(b) && b as int == i
}

/// What one `collapse_step` does, as its contract states it.
pub open spec fn step_rel(before: Seq<Slot>, after: Seq<Slot>, settled: Option<usize>) -> bool {
    &&& before.len() == after.len()
    &&& forall|i: int| 0 <= i < before.len() ==> (#[trigger] after[i]).point == before[i].point
    &&& forall|i: int| 0 <= i < before.len() && !is_settled(settled, i) ==> {
        let o = before[i];
        let n = #[trigger] after[i];
        if o.entropy > 0 && options(before, i).len() == 0 {
            n.point == o.point && n.tile == o.tile && n.entropy == 0 && n.superposition@.len() == 0
        } else {
            n == o
        }
    }
    &&& settled matches Some(b) ==> {
        &&& b < before.len()
        &&& before[b as int].entropy > 0
        &&& after[b as int].entropy == 0
        &&& after[b as int].tile matches Some(t) && tile_fits(constraints(before, before[b as int].point), t)
    }
}

proof fn lemma_slot_index_points(m1: Seq<Slot>, m2: Seq<Slot>, q: GridPoint)
    requires
        m1.len() == m2.len(),
        forall|j: int| 0 <= j < m1.len() ==> (#[trigger] m2[j]).point == m1[j].point,
    ensures slot_index(m1, q) == slot_index(m2, q),
    decreases m1.len(),
{
    if m1.len() > 0 {
        assert(m2[0].point == m1[0].point);
        if m1[0].point != q {
            let t1 = m1.drop_first();
            let t2 = m2.drop_first();
            assert forall|j: int| 0 <= j < t1.len() implies (#[trigger] t2[j]).point == t1[j].point by {
                assert(m2[j + 1].point == m1[j + 1].point);
            }
            lemma_slot_index_points(t1, t2, q);
        }
    }
}

/// In a map whose points are distinct, the slot found at a slot's point is that slot.
proof fn lemma_index_of_point(m: Seq<Slot>, j: int)
    requires map_wf(m), 0 <= j < m.len(),
    ensures slot_index(m, m[j].point) == j, placed(m, m[j].point) == m[j].tile,
{
    lemma_slot_index(m, m[j].point);
}

/// Across a step, a placed tile stays where it is, and so does every tile but the new one.
proof fn lemma_placed_persists(before: Seq<Slot>, after: Seq<Slot>, settled: Option<usize>)
    requires step_rel(before, after, settled), map_wf(before), tiles_settled(before),
    ensures
        tiles_settled(after),
        forall|q: GridPoint| (#[trigger] placed(before, q)) is Some ==> placed(after, q) == placed(before, q),
        forall|k: int| 0 <= k < before.len() && !is_settled(settled, k) ==> (#[trigger] after[k]).tile == before[k].tile,
{
    assert forall|k: int| 0 <= k < before.len() && !is_settled(settled, k) implies (#[trigger] after[k]).tile == before[k].tile by {
        assert(after[k].point == before[k].point);
    }
    assert forall|q: GridPoint| (#[trigger] placed(before, q)) is Some implies placed(after, q) == placed(before, q) by {
        lemma_slot_index_points(before, after, q);
        lemma_slot_index(before, q);
        let k = slot_index(before, q);
        assert(before[k].tile is Some);
        assert(before[k].entropy == 0);
        assert(after[k] == before[k]);
    }
    assert forall|i: int| 0 <= i < after.len() && (#[trigger] after[i]).tile is Some implies after[i].entropy == 0 by {
        if !is_settled(settled, i) {
            assert(after[i].point == before[i].point);
        }
    }
}

/// Tiles placed since `before` only narrow what fits a cell: a cell no candidate fitted
/// then fits none now.
proof fn lemma_stricter(before: Seq<Slot>, after: Seq<Slot>, p: GridPoint, sp: Seq<Tile>)
    requires
        forall|q: GridPoint| (#[trigger] placed(before, q)) is Some ==> placed(after, q) == placed(before, q),
        fitting(sp, constraints(before, p)).len() == 0,
    ensures fitting(sp, constraints(after, p)).len() == 0,
{
    let cb = constraints(before, p);
    let ca = constraints(after, p);
    if fitting(sp, ca).len() > 0 {
        lemma_fitting(sp, ca);
        let t = fitting(sp, ca)[0];
        assert forall|q: GridPoint, f: int| #[trigger] side_of(before, q, f) == TileJoint::All
            || side_of(after, q, f) == side_of(before, q, f) by {
            if placed(before, q) is Some {
                assert(placed(after, q) == placed(before, q));
            }
        }
        assert forall|k: int| 0 <= k < 6 implies #[trigger] joint_allows(cb[k], t.joints@[k]) by {
            assert(joint_allows(ca[k], t.joints@[k]));
        }
        lemma_fitting_complete(sp, cb, t);
    }
}

/// A step keeps the dead cells dead: each still has no candidate that fits.
proof fn lemma_step_dead(m0: Seq<Slot>, before: Seq<Slot>, after: Seq<Slot>, settled: Option<usize>)
    requires
        step_rel(before, after, settled), map_wf(before), tiles_settled(before),
        m0.len() == before.len(),
        forall|i: int| 0 <= i < m0.len() ==> follows(m0[i], #[trigger] before[i]),
        dead_cells_hold(m0, before),
    ensures dead_cells_hold(m0, after),
{
    lemma_placed_persists(before, after, settled);
    assert forall|i: int|
        0 <= i < after.len() && i < m0.len() && m0[i].entropy > 0 && (#[trigger] after[i]).entropy == 0 && after[i].tile is None
        implies fitting(m0[i].superposition@, constraints(after, after[i].point)).len() == 0 by {
        assert(follows(m0[i], before[i]));
        assert(after[i].point == before[i].point);
        if before[i].entropy > 0 {
            assert(before[i] == m0[i]);
        }
        lemma_stricter(before, after, before[i].point, m0[i].superposition@);
    }
}

/// Stepping back from a cell one past `a` (in `i32`) gives `a` again, when that cell is off
/// the edge of the range.
proof fn lemma_step_back(a: i32, b: i32)
    ensures b == (a + 1) as i32 && i32::MIN < b ==> (b - 1) as i32 == a,
{
    assert(b == (a + 1) as i32 && i32::MIN < b ==> (b - 1) as i32 == a) by (bit_vector);
}

/// A step keeps every pair of tiled neighbours in agreement: the new tile fitted the tiles
/// around it when it was placed.
proof fn lemma_step_pairs(before: Seq<Slot>, after: Seq<Slot>, settled: Option<usize>, here: spec_fn(int) -> bool)
    requires
        step_rel(before, after, settled), map_wf(before), tiles_settled(before),
        pairs_fit(before, here),
    ensures pairs_fit(after, here),
{
    lemma_placed_persists(before, after, settled);
    assert forall|i: int, j: int|
        0 <= i < after.len() && 0 <= j < after.len() && (here(i) || here(j)) && (#[trigger] after[i]).tile is Some
            && (#[trigger] after[j]).tile is Some
        implies faces_fit(after[i].point, after[i].tile.unwrap(), after[j].point, after[j].tile.unwrap()) by {
        assert(after[i].point == before[i].point);
        assert(after[j].point == before[j].point);
        assert(before[i].wf() && before[j].wf());
        if is_settled(settled, i) && is_settled(settled, j) {
            assert(before[i].entropy > 0);
        } else if is_settled(settled, i) {
            let t = after[i].tile.unwrap();
            let pb = before[i].point;
            assert(tile_fits(constraints(before, pb), t));
            lemma_index_of_point(before, j);
            let c = constraints(before, pb);
            assert(joint_allows(c[0], t.joints@[0]) && joint_allows(c[3], t.joints@[3])
                && joint_allows(c[4], t.joints@[4]));
        } else if is_settled(settled, j) {
            let t = after[j].tile.unwrap();
            let pb = before[j].point;
            let pi = before[i].point;
            assert(before[j].entropy > 0);
            assert(tile_fits(constraints(before, pb), t));
            lemma_index_of_point(before, i);
            lemma_step_back(pi.y, pb.y);
            lemma_step_back(pi.x, pb.x);
            lemma_step_back(pi.z, pb.z);
            let c = constraints(before, pb);
            assert(joint_allows(c[1], t.joints@[1]) && joint_allows(c[2], t.joints@[2])
                && joint_allows(c[5], t.joints@[5]));
        } else {
            assert(before[i].tile is Some && before[j].tile is Some);
        }
    }
}

/// Settles every open cell of the map, one `collapse_step` at a time, until no open cell is
/// left. Cells settled already stay as they are; every other cell ends with no candidates,
/// and with its former tile or one of its candidates.
pub fn collapse(slot_map: Vec<Slot>) -> (res: Vec<Slot>)
    requires map_wf(slot_map@),
    ensures
        map_wf(res@),
        res@.len() == slot_map@.len(),
        forall|i: int| 0 <= i < res@.len() ==> {
            let n = #[trigger] res@[i];
            let o = slot_map@[i];
            &&& n.point == o.point
            &&& n.entropy == 0
            &&& o.entropy == 0 ==> n == o
            &&& n.tile == o.tile || (n.tile matches Some(t) && o.superposition@.contains(t))
        },
        tiles_settled(slot_map@) ==> {
            &&& tiles_settled(res@)
            &&& pairs_fit(res@, |i: int| slot_map@[i].entropy > 0)
            &&& dead_cells_hold(slot_map@, res@)
        },
{
    let ghost m0 = slot_map@;
    let ghost here = |i: int| m0[i].entropy > 0;
    let mut map = slot_map;
    assert forall|i: int| 0 <= i < m0.len() implies follows(m0[i], #[trigger] map@[i]) by {}
    loop
        invariant
            map_wf(map@), map@.len() == m0.len(),
            forall|i: int| 0 <= i < m0.len() ==> follows(m0[i], #[trigger] map@[i]),
            here == (|i: int| m0[i].entropy > 0),
            tiles_settled(m0) ==> tiles_settled(map@) && pairs_fit(map@, here) && dead_cells_hold(m0, map@),
        ensures
            map_wf(map@), map@.len() == m0.len(),
            forall|i: int| 0 <= i < m0.len() ==> follows(m0[i], #[trigger] map@[i]),
            forall|i: int| 0 <= i < m0.len() ==> (#[trigger] map@[i]).entropy == 0,
            tiles_settled(m0) ==> tiles_settled(map@) && pairs_fit(map@, here) && dead_cells_hold(m0, map@),
        decreases unsettled(map@),
    {
        let ghost before = map@;
        assert(before.len() == map.len());
        let settled = collapse_step(&mut map);
        assert forall|i: int| 0 <= i < m0.len() implies follows(m0[i], #[trigger] map@[i]) by {
            assert(follows(m0[i], before[i]));
            assert(follows(before[i], map@[i]));
        }
        proof {
            if tiles_settled(m0) {
                assert forall|i: int| 0 <= i < before.len() implies (#[trigger] map@[i]).point == before[i].point by {
                    assert(follows(before[i], map@[i]));
                }
                assert forall|i: int| 0 <= i < before.len() && !is_settled(settled, i) implies {
                    let o = before[i];
                    let n = #[trigger] map@[i];
                    if o.entropy > 0 && options(before, i).len() == 0 {
                        n.point == o.point && n.tile == o.tile && n.entropy == 0 && n.superposition@.len() == 0
                    } else {
                        n == o
                    }
                } by {
                    assert(settled != Some(i as usize));
                }
                assert(step_rel(before, map@, settled));
                lemma_step_pairs(before, map@, settled, here);
                lemma_step_dead(m0, before, map@, settled);
                lemma_placed_persists(before, map@, settled);
            }
        }
        if settled.is_none() {
            break;
        }
    }
    map
}

proof fn lemma_total_positive(sp: Seq<Tile>)
    requires sp.len() > 0, all_weighted(sp),
    ensures total_weight(sp) > 0,
{
    assert(sp[0].rng_seed > 0);
}

/// Sizes along the three axes of the grid.
#[derive(Clone, Copy, Debug, PartialEq, Eq, Structural)]
pub struct GridSize {
    pub x: u32,
    pub y: u32,
    pub z: u32,
}

/// A chunk of the map: its centre, the size of a texture and of a chunk, the extent of
/// the map around the centre (`x`, `y`) and its number of layers (`z`), and its cells.
#[derive(Debug)]
pub struct TileMap {
    pub center_point: GridPoint,
    pub texture_size: GridSize,
    pub chunk_size: GridSize,
    pub map_size: GridSize,
    pub slot_map: Vec<Slot>,
}

/// The layer number (a `u32`) that a cell's `z` stands for: `z` is the layer read as an `i32`.
pub open spec fn layer_of(v: i32) -> int {
    if v >= 0 { v as int } else { v + 0x1_0000_0000 }
}

/// A layer number read as an `i32` stands for that layer.
proof fn lemma_layer_of(z: u32)
    ensures
        layer_of(z as i32) == z,
        z <= i32::MAX ==> z as i32 == z,
{
    assert(z <= 0x7fff_ffff ==> (z as i32) as int == z as int) by (bit_vector);
    assert(z > 0x7fff_ffff ==> (z as i32) as int == z as int - 0x1_0000_0000) by (bit_vector);
}

/// Half a map size, as an `i32` division of the size read as an `i32`: a size above
/// `i32::MAX` reads as negative, and the division rounds toward zero.
pub open spec fn half_extent(s: u32) -> int {
    if s <= 0x7fff_ffff { (s / 2) as int } else { -(((0x1_0000_0000 - s) / 2) as int) }
}

/// Half a map size (see `half_extent`).
pub fn half_of(s: u32) -> (h: i64)
    ensures h == half_extent(s),
{
    if s <= 0x7fff_ffff { (s / 2) as i64 } else { -(((0x1_0000_0000u64 - s as u64) / 2) as i64) }
}

impl TileMap {
    pub open spec fn min_x(&self) -> int { self.center_point.x - half_extent(self.map_size.x) }
    pub open spec fn max_x(&self) -> int { self.center_point.x + half_extent(self.map_size.x) }
    pub open spec fn min_y(&self) -> int { self.center_point.y - half_extent(self.map_size.y) }
    pub open spec fn max_y(&self) -> int { self.center_point.y + half_extent(self.map_size.y) }

    /// The cells of the map: from `min` to `max` on `x` and `y`, every layer below
    /// `map_size.z` (layer numbers are `u32`, and a cell's `z` is its layer read as an `i32`).
    pub open spec fn in_box(&self, p: GridPoint) -> bool {
        &&& self.min_x() <= p.x <= self.max_x()
        &&& self.min_y() <= p.y <= self.max_y()
        &&& layer_of(p.z) < self.map_size.z
    }

    /// The map has at least one cell.
    pub open spec fn has_cells(&self) -> bool {
        self.min_x() <= self.max_x() && self.min_y() <= self.max_y() && self.map_size.z > 0
    }

    /// The bounds of the box are `i32` values, and a map with cells keeps a margin of one
    /// cell inside the `i32` range, so that every cell has neighbours.
    pub open spec fn box_fits(&self) -> bool {
        &&& i32::MIN <= self.min_x() && self.max_x() <= i32::MAX
        &&& i32::MIN <= self.min_y() && self.max_y() <= i32::MAX
        &&& self.has_cells() ==> {
            &&& i32::MIN < self.min_x() && self.max_x() < i32::MAX
            &&& i32::MIN < self.min_y() && self.max_y() < i32::MAX
        }
    }

    /// Whether `p` is one of the cells of the map's box.
    pub fn holds_point(&self, p: GridPoint) -> (r: bool)
        ensures r == self.in_box(p),
    {
        let cx = self.center_point.x as i64;
        let cy = self.center_point.y as i64;
        let hx = half_of(self.map_size.x);
        let hy = half_of(self.map_size.y);
        let x = p.x as i64;
        let y = p.y as i64;
        let layer: i64 = if p.z >= 0 { p.z as i64 } else { p.z as i64 + 0x1_0000_0000 };
        cx - hx <= x && x <= cx + hx && cy - hy <= y && y <= cy + hy && layer < (self.map_size.z as i64)
    }
}

/// Some slot stands at `p`.
pub open spec fn has_slot(m: Seq<Slot>, p: GridPoint) -> bool {
    exists|i: int| 0 <= i < m.len() && #[trigger] m[i].point == p
}

/// The image saved for the cell `p`, if any (the first entry for that cell).
pub open spec fn saved_name(saved: Seq<TileState>, p: GridPoint) -> Option<Seq<char>>
    decreases saved.len(),
{
    if saved.len() == 0 {
        None
    } else if saved[0].point == (p.x, p.y, p.z) {
        Some(saved[0].filename@)
    } else {
        saved_name(saved.drop_first(), p)
    }
}

/// The cell `i` of the map `m` that `create_map` made from `old` and `saved` was settled by
/// it: a cell that was open, or a new cell whose tile was not saved.
pub open spec fn made_here(old: Seq<Slot>, saved: Seq<TileState>, m: Seq<Slot>, i: int) -> bool {
    if i < old.len() { old[i].entropy > 0 } else { saved_name(saved, m[i].point) is None }
}

/// The terrain tile named `n` holds the cell: its image, the terrain layer, and its
/// weight, collider and joints as the terrain set gives them.
pub open spec fn holds_terrain(t: Tile, n: Seq<char>) -> bool {
    &&& t.filename@ == n
    &&& t.layer == 1
    &&& terrain_index(n) < load_terrain_superposition_names().len()
    &&& tile_view(t) == load_terrain_superposition_tiles()[terrain_index(n)]
}

/// The image saved for a cell is that of the first saved entry at the cell's own point, and
/// there is none exactly when no saved entry stands at that point.
pub proof fn lemma_saved_name(saved: Seq<TileState>, p: GridPoint)
    ensures
        match saved_name(saved, p) {
            Some(n) => exists|k: int| #![trigger saved[k]] {
                &&& 0 <= k < saved.len()
                &&& saved[k].point == (p.x, p.y, p.z)
                &&& saved[k].filename@ == n
                &&& forall|j: int| 0 <= j < k ==> saved[j].point != (p.x, p.y, p.z)
            },
            None => forall|k: int| 0 <= k < saved.len() ==> (#[trigger] saved[k]).point != (p.x, p.y, p.z),
        },
    decreases saved.len(),
{
    if saved.len() > 0 && saved[0].point != (p.x, p.y, p.z) {
        let rest = saved.drop_first();
        lemma_saved_name(rest, p);
        match saved_name(saved, p) {
            Some(n) => {
                let k = choose|k: int| #![trigger rest[k]] {
                    &&& 0 <= k < rest.len()
                    &&& rest[k].point == (p.x, p.y, p.z)
                    &&& rest[k].filename@ == n
                    &&& forall|j: int| 0 <= j < k ==> rest[j].point != (p.x, p.y, p.z)
                };
                assert(saved[k + 1] == rest[k]);
                assert forall|j: int| 0 <= j < k + 1 implies saved[j].point != (p.x, p.y, p.z) by {
                    if j > 0 { assert(saved[j] == rest[j - 1]); }
                }
            },
            None => {
                assert forall|k: int| 0 <= k < saved.len() implies (#[trigger] saved[k]).point != (p.x, p.y, p.z) by {
                    if k > 0 { assert(saved[k] == rest[k - 1]); }
                }
            },
        }
    } else if saved.len() > 0 {
        assert(saved[0].point == (p.x, p.y, p.z));
    }
}

/// A cell that `create_map` adds: it lies in the box; a saved cell holds its saved tile,
/// settled; any other starts open, with the tiles of its layer.
pub open spec fn fresh_slot(tm: TileMap, saved: Seq<TileState>, s: Slot) -> bool {
    &&& tm.in_box(s.point)
    &&& match saved_name(saved, s.point) {
        Some(n) => s.entropy == 0 && (s.tile matches Some(t) && holds_terrain(t, n)),
        None => {
            &&& s.tile is None
            &&& s.superposition@.map_values(|t: Tile| tile_view(t)) == layer_tiles(s.point.z as int)
            &&& forall|k: int| 0 <= k < s.superposition@.len() ==> #[trigger] s.superposition@[k].layer == s.point.z
        },
    }
}

/// The image saved for the cell `p`, if any.
pub fn saved_tile_name(saved: &Vec<TileState>, p: GridPoint) -> (res: Option<String>)
    ensures
        match saved_name(saved@, p) {
            Some(n) => res matches Some(r) && r@ == n,
            None => res is None,
        },
{
    let mut i: usize = 0;
    assert(saved@.skip(0) =~= saved@);
    while i < saved.len()
        invariant i <= saved@.len(), saved_name(saved@, p) == saved_name(saved@.skip(i as int), p),
        decreases saved@.len() - i,
    {
        let ghost rest = saved@.skip(i as int);
        assert(rest[0] == saved@[i as int]);
        assert(rest.drop_first() =~= saved@.skip(i + 1));
        let (x, y, z) = saved[i].point;
        if x == p.x && y == p.y && z == p.z {
            return Some(saved[i].filename.clone());
        }
        i = i + 1;
    }
    assert(saved@.skip(i as int) =~= Seq::<TileState>::empty());
    None
}

/// Fills the box of the map with cells and settles them. A new cell whose tile was saved
/// (`saved`) takes that tile; any other new cell starts with the tiles of its layer. Then
/// every open cell is settled as `collapse` does.
pub fn create_map(tile_map: &mut TileMap, saved: &Vec<TileState>)
    requires
        map_wf(old(tile_map).slot_map@),
        old(tile_map).box_fits(),
        forall|p: GridPoint| #[trigger] old(tile_map).in_box(p) && !has_slot(old(tile_map).slot_map@, p)
            ==> (saved_name(saved@, p) matches Some(n) ==> load_terrain_superposition_names().contains(n)),
    ensures
        final(tile_map).center_point == old(tile_map).center_point,
        final(tile_map).texture_size == old(tile_map).texture_size,
        final(tile_map).chunk_size == old(tile_map).chunk_size,
        final(tile_map).map_size == old(tile_map).map_size,
        map_wf(final(tile_map).slot_map@),
        final(tile_map).slot_map@.len() >= old(tile_map).slot_map@.len(),
        forall|p: GridPoint| #[trigger] old(tile_map).in_box(p) ==> has_slot(final(tile_map).slot_map@, p),
        forall|i: int| 0 <= i < final(tile_map).slot_map@.len() ==> (#[trigger] final(tile_map).slot_map@[i]).entropy == 0,
        forall|i: int| 0 <= i < old(tile_map).slot_map@.len() ==> {
            let n = #[trigger] final(tile_map).slot_map@[i];
            let o = old(tile_map).slot_map@[i];
            &&& n.point == o.point
            &&& o.entropy == 0 ==> n == o
            &&& n.tile == o.tile || (n.tile matches Some(t) && o.superposition@.contains(t))
        },
        forall|i: int| old(tile_map).slot_map@.len() <= i < final(tile_map).slot_map@.len() ==> {
            let n = #[trigger] final(tile_map).slot_map@[i];
            &&& old(tile_map).in_box(n.point)
            &&& match saved_name(saved@, n.point) {
                Some(name) => n.tile matches Some(t) && holds_terrain(t, name),
                None => n.tile matches Some(t) ==> t.layer == n.point.z
                    && layer_tiles(n.point.z as int).contains(tile_view(t)),
            }
        },
        tiles_settled(old(tile_map).slot_map@) ==> {
            &&& tiles_settled(final(tile_map).slot_map@)
            &&& pairs_fit(final(tile_map).slot_map@,
                |i: int| made_here(old(tile_map).slot_map@, saved@, final(tile_map).slot_map@, i))
            &&& forall|i: int| 0 <= i < old(tile_map).slot_map@.len() && old(tile_map).slot_map@[i].entropy > 0
                && (#[trigger] final(tile_map).slot_map@[i]).tile is None
                ==> fitting(old(tile_map).slot_map@[i].superposition@,
                    constraints(final(tile_map).slot_map@, final(tile_map).slot_map@[i].point)).len() == 0
            &&& forall|i: int| old(tile_map).slot_map@.len() <= i < final(tile_map).slot_map@.len()
                && (#[trigger] final(tile_map).slot_map@[i]).tile is None
                && saved_name(saved@, final(tile_map).slot_map@[i].point) is None
                ==> forall|k: int| 0 <= k < layer_tiles(final(tile_map).slot_map@[i].point.z as int).len()
                    ==> !view_fits(constraints(final(tile_map).slot_map@, final(tile_map).slot_map@[i].point),
                        #[trigger] layer_tiles(final(tile_map).slot_map@[i].point.z as int)[k])
        },
{
    let ghost tm0 = *tile_map;
    let ghost old_len = tile_map.slot_map@.len();
    let mut slots: Vec<Slot> = Vec::new();
    std::mem::swap(&mut slots, &mut tile_map.slot_map);
    let half_x = half_of(tile_map.map_size.x);
    let half_y = half_of(tile_map.map_size.y);
    let min_x: i64 = tile_map.center_point.x as i64 - half_x;
    let max_x: i64 = tile_map.center_point.x as i64 + half_x;
    let min_y: i64 = tile_map.center_point.y as i64 - half_y;
    let max_y: i64 = tile_map.center_point.y as i64 + half_y;
    let size_z = tile_map.map_size.z;
    let mut z: u32 = 0;
    while z < size_z
        invariant
            tm0.box_fits(), size_z == tm0.map_size.z,
            min_x == tm0.min_x(), max_x == tm0.max_x(), min_y == tm0.min_y(), max_y == tm0.max_y(),
            forall|p: GridPoint| #[trigger] tm0.in_box(p) && !has_slot(tm0.slot_map@, p)
                ==> (saved_name(saved@, p) matches Some(n) ==> load_terrain_superposition_names().contains(n)),
            z <= size_z,
            map_wf(slots@), slots@.len() >= old_len, old_len == tm0.slot_map@.len(),
            forall|i: int| 0 <= i < old_len ==> #[trigger] slots@[i] == tm0.slot_map@[i],
            forall|i: int| old_len <= i < slots@.len() ==> fresh_slot(tm0, saved@, #[trigger] slots@[i]),
            forall|p: GridPoint| #[trigger] tm0.in_box(p) && layer_of(p.z) < z ==> has_slot(slots@, p),
        decreases size_z - z,
    {
        let mut x: i64 = min_x;
        while x <= max_x
            invariant
                tm0.box_fits(), size_z == tm0.map_size.z, z < size_z,
                min_x == tm0.min_x(), max_x == tm0.max_x(), min_y == tm0.min_y(), max_y == tm0.max_y(),
                forall|p: GridPoint| #[trigger] tm0.in_box(p) && !has_slot(tm0.slot_map@, p)
                ==> (saved_name(saved@, p) matches Some(n) ==> load_terrain_superposition_names().contains(n)),
                min_x <= x, min_x <= max_x ==> x <= max_x + 1,
                map_wf(slots@), slots@.len() >= old_len, old_len == tm0.slot_map@.len(),
                forall|i: int| 0 <= i < old_len ==> #[trigger] slots@[i] == tm0.slot_map@[i],
                forall|i: int| old_len <= i < slots@.len() ==> fresh_slot(tm0, saved@, #[trigger] slots@[i]),
                forall|p: GridPoint| #[trigger] tm0.in_box(p) && (layer_of(p.z) < z || (layer_of(p.z) == z && p.x < x)) ==> has_slot(slots@, p),
            decreases max_x - x + 1,
        {
            let mut y: i64 = min_y;
            while y <= max_y
                invariant
                    tm0.box_fits(), size_z == tm0.map_size.z, z < size_z, min_x <= x <= max_x,
                    min_x == tm0.min_x(), max_x == tm0.max_x(), min_y == tm0.min_y(), max_y == tm0.max_y(),
                    forall|p: GridPoint| #[trigger] tm0.in_box(p) && !has_slot(tm0.slot_map@, p)
                ==> (saved_name(saved@, p) matches Some(n) ==> load_terrain_superposition_names().contains(n)),
                    min_y <= y, min_y <= max_y ==> y <= max_y + 1,
                    map_wf(slots@), slots@.len() >= old_len, old_len == tm0.slot_map@.len(),
                    forall|i: int| 0 <= i < old_len ==> #[trigger] slots@[i] == tm0.slot_map@[i],
                    forall|i: int| old_len <= i < slots@.len() ==> fresh_slot(tm0, saved@, #[trigger] slots@[i]),
                    forall|p: GridPoint| #[trigger] tm0.in_box(p) && (layer_of(p.z) < z || (layer_of(p.z) == z && p.x < x)
                        || (layer_of(p.z) == z && p.x == x && p.y < y)) ==> has_slot(slots@, p),
                decreases max_y - y + 1,
            {
                let point = GridPoint { x: x as i32, y: y as i32, z: z as i32 };
                proof { lemma_layer_of(z); }
                match find_slot(&slots, point) {
                    Some(_) => {},
                    None => {
                        proof { lemma_slot_index(slots@, point); }
                        let superposition = load_default_superposition(z);
                        let entropy = superposition.len();
                        assert(all_weighted(superposition@)) by {
                            assert forall|k: int| 0 <= k < superposition@.len() implies
                                #[trigger] superposition@[k].rng_seed > 0 by {
                                assert(superposition@[k].layer == z);
                            }
                        }
                        let slot = match saved_tile_name(saved, point) {
                            Some(name) => {
                                proof {
                                    assert(!has_slot(tm0.slot_map@, point)) by {
                                        if has_slot(tm0.slot_map@, point) {
                                            let k = choose|k: int| 0 <= k < tm0.slot_map@.len()
                                                && #[trigger] tm0.slot_map@[k].point == point;
                                            assert(slots@[k] == tm0.slot_map@[k]);
                                        }
                                    }
                                    assert(tm0.in_box(point));
                                }
                                let t = get_tile_by_filename(name);
                                Slot { point, superposition: Vec::new(), entropy: 0, tile: Some(t) }
                            },
                            None => Slot { point, superposition, entropy, tile: None },
                        };
                        let ghost before = slots@;
                        slots.push(slot);
                        proof {
                            assert(slots@[before.len() as int].point == point);
                            let ns = slots@[before.len() as int];
                            assert(ns.entropy == ns.superposition@.len());
                            assert(all_weighted(ns.superposition@));
                            if ns.entropy > 0 {
                                assert(superposition@.map_values(|t: Tile| tile_view(t)).len() > 0);
                                assert(z <= 2);
                                assert(i32::MIN < ns.point.z < i32::MAX);
                            }
                            assert(ns.wf());
                            assert forall|q: GridPoint| #[trigger] has_slot(before, q) implies has_slot(slots@, q) by {
                                let i = choose|i: int| 0 <= i < before.len() && #[trigger] before[i].point == q;
                                assert(slots@[i] == before[i]);
                            }
                            assert forall|i: int, j: int| 0 <= i < slots@.len() && 0 <= j < slots@.len() && i != j
                                implies slots@[i].point != slots@[j].point by {
                                if i < before.len() && j < before.len() {
                                    assert(slots@[i] == before[i] && slots@[j] == before[j]);
                                } else if i < before.len() {
                                    assert(slots@[i] == before[i]);
                                } else if j < before.len() {
                                    assert(slots@[j] == before[j]);
                                }
                            }
                            assert forall|i: int| 0 <= i < slots@.len() implies #[trigger] slots@[i].wf() by {
                                if i < before.len() { assert(slots@[i] == before[i]); }
                            }
                            assert forall|i: int| 0 <= i < old_len implies #[trigger] slots@[i] == tm0.slot_map@[i] by {
                                assert(slots@[i] == before[i]);
                            }
                            assert forall|i: int| old_len <= i < slots@.len() implies fresh_slot(tm0, saved@, #[trigger] slots@[i]) by {
                                if i < before.len() { assert(slots@[i] == before[i]); }
                            }
                        }
                    },
                }
                proof {
                    assert(has_slot(slots@, point)) by {
                        lemma_slot_index(slots@, point);
                    }
                }
                y = y + 1;
            }
            x = x + 1;
        }
        z = z + 1;
    }
    let settled = collapse(slots);
    tile_map.slot_map = settled;
    proof {
        assert forall|i: int| old_len <= i < tile_map.slot_map@.len() implies {
            let n = #[trigger] tile_map.slot_map@[i];
            &&& tm0.in_box(n.point)
            &&& match saved_name(saved@, n.point) {
                Some(name) => n.tile matches Some(t) && holds_terrain(t, name),
                None => n.tile matches Some(t) ==> t.layer == n.point.z
                    && layer_tiles(n.point.z as int).contains(tile_view(t)),
            }
        } by {
            let o = slots@[i];
            assert(fresh_slot(tm0, saved@, o));
            assert(o.wf());
            let n = tile_map.slot_map@[i];
            if let Some(t) = n.tile {
                if saved_name(saved@, n.point) is None && o.tile is None {
                    let k = choose|k: int| 0 <= k < o.superposition@.len() && o.superposition@[k] == t;
                    assert(o.superposition@[k].layer == o.point.z);
                    assert(o.superposition@.map_values(|t: Tile| tile_view(t))[k] == tile_view(t));
                    assert(layer_tiles(n.point.z as int)[k] == tile_view(t));
                }
            }
        }
        assert forall|p: GridPoint| #[trigger] tm0.in_box(p) implies has_slot(tile_map.slot_map@, p) by {
            assert(has_slot(slots@, p));
            let i = choose|i: int| 0 <= i < slots@.len() && #[trigger] slots@[i].point == p;
            assert(tile_map.slot_map@[i].point == p);
        }
        if tiles_settled(tm0.slot_map@) {
            lemma_create_map_settles(tm0.slot_map@, saved@, tm0, slots@, tile_map.slot_map@);
        }
    }
}

/// What settling the filled box gives, when every tiled cell of the old map was settled.
proof fn lemma_create_map_settles(old: Seq<Slot>, saved: Seq<TileState>, tm0: TileMap, slots: Seq<Slot>, res: Seq<Slot>)
    requires
        tiles_settled(old),
        map_wf(slots), slots.len() >= old.len(),
        forall|i: int| 0 <= i < old.len() ==> #[trigger] slots[i] == old[i],
        forall|i: int| old.len() <= i < slots.len() ==> fresh_slot(tm0, saved, #[trigger] slots[i]),
        res.len() == slots.len(),
        forall|i: int| 0 <= i < res.len() ==> {
            let n = #[trigger] res[i];
            let o = slots[i];
            &&& n.point == o.point
            &&& n.entropy == 0
            &&& o.entropy == 0 ==> n == o
            &&& n.tile == o.tile || (n.tile matches Some(t) && o.superposition@.contains(t))
        },
        tiles_settled(slots) ==> {
            &&& tiles_settled(res)
            &&& pairs_fit(res, |i: int| slots[i].entropy > 0)
            &&& dead_cells_hold(slots, res)
        },
    ensures
        tiles_settled(res),
        pairs_fit(res, |i: int| made_here(old, saved, res, i)),
        forall|i: int| 0 <= i < old.len() && old[i].entropy > 0 && (#[trigger] res[i]).tile is None
            ==> fitting(old[i].superposition@, constraints(res, res[i].point)).len() == 0,
        forall|i: int| old.len() <= i < res.len() && (#[trigger] res[i]).tile is None
            && saved_name(saved, res[i].point) is None
            ==> forall|k: int| 0 <= k < layer_tiles(res[i].point.z as int).len()
                ==> !view_fits(constraints(res, res[i].point), #[trigger] layer_tiles(res[i].point.z as int)[k]),
{
    assert forall|i: int| 0 <= i < slots.len() && (#[trigger] slots[i]).tile is Some implies slots[i].entropy == 0 by {
        if i < old.len() {
            assert(slots[i] == old[i]);
        } else {
            assert(fresh_slot(tm0, saved, slots[i]));
        }
    }
    let here0 = |i: int| slots[i].entropy > 0;
    let made = |i: int| made_here(old, saved, res, i);
    assert forall|i: int| 0 <= i < res.len() && made(i) && (#[trigger] res[i]).tile is Some implies here0(i) by {
        if i < old.len() {
            assert(slots[i] == old[i]);
        } else {
            assert(fresh_slot(tm0, saved, slots[i]));
            assert(res[i].point == slots[i].point);
        }
    }
    assert forall|i: int, j: int|
        0 <= i < res.len() && 0 <= j < res.len() && (made(i) || made(j)) && (#[trigger] res[i]).tile is Some
            && (#[trigger] res[j]).tile is Some
        implies faces_fit(res[i].point, res[i].tile.unwrap(), res[j].point, res[j].tile.unwrap()) by {
        assert(here0(i) || here0(j));
    }
    assert forall|i: int| 0 <= i < old.len() && old[i].entropy > 0 && (#[trigger] res[i]).tile is None
        implies fitting(old[i].superposition@, constraints(res, res[i].point)).len() == 0 by {
        assert(slots[i] == old[i]);
    }
    assert forall|i: int| old.len() <= i < res.len() && (#[trigger] res[i]).tile is None
        && saved_name(saved, res[i].point) is None
        implies forall|k: int| 0 <= k < layer_tiles(res[i].point.z as int).len()
            ==> !view_fits(constraints(res, res[i].point), #[trigger] layer_tiles(res[i].point.z as int)[k]) by {
        let o = slots[i];
        assert(fresh_slot(tm0, saved, o));
        assert(o.wf());
        assert(res[i].point == o.point);
        let c = constraints(res, res[i].point);
        let views = o.superposition@.map_values(|t: Tile| tile_view(t));
        assert forall|k: int| 0 <= k < layer_tiles(res[i].point.z as int).len()
            implies !view_fits(c, #[trigger] layer_tiles(res[i].point.z as int)[k]) by {
            assert(views.len() == o.superposition@.len());
            assert(views[k] == tile_view(o.superposition@[k]));
            lemma_view_fits(c, o.superposition@[k]);
            if view_fits(c, views[k]) {
                assert(o.superposition@.contains(o.superposition@[k]));
                lemma_fitting_complete(o.superposition@, c, o.superposition@[k]);
            }
        }
    }
}

/// The stored form of the placed tiles of `m`, in order.
pub open spec fn placed_states(m: Seq<Slot>) -> Seq<(GridPoint, Seq<char>, TileCollider)>
    decreases m.len(),
{
    if m.len() == 0 {
        Seq::empty()
    } else {
        let rest = placed_states(m.drop_last());
        match m.last().tile {
            Some(t) => rest.push((m.last().point, t.filename@, t.collider)),
            None => rest,
        }
    }
}

/// The stored form of one tiled cell: its point, its tile's image and collider.
pub open spec fn cell_state(s: Slot) -> (GridPoint, Seq<char>, TileCollider) {
    (s.point, s.tile.unwrap().filename@, s.tile.unwrap().collider)
}

/// `e` is the stored form of a tiled cell of `m`.
pub open spec fn from_tiled_cell(m: Seq<Slot>, e: (GridPoint, Seq<char>, TileCollider)) -> bool {
    exists|i: int| 0 <= i < m.len() && m[i].tile is Some && e == #[trigger] cell_state(m[i])
}

/// Every entry of the stored form of a map comes from a tiled cell of the map.
proof fn lemma_placed_state_from(m: Seq<Slot>, k: int)
    requires 0 <= k < placed_states(m).len(),
    ensures from_tiled_cell(m, placed_states(m)[k]),
    decreases m.len(),
{
    let front = m.drop_last();
    let rest = placed_states(front);
    if k < rest.len() {
        lemma_placed_state_from(front, k);
        let i = choose|i: int| 0 <= i < front.len() && front[i].tile is Some && rest[k] == #[trigger] cell_state(front[i]);
        assert(m[i] == front[i]);
        assert(placed_states(m)[k] == rest[k]);
        assert(cell_state(m[i]) == cell_state(front[i]));
    } else {
        let last = m.len() - 1;
        assert(m[last] == m.last());
        assert(placed_states(m)[k] == cell_state(m[last]));
    }
}

/// The stored form of a map holds the point, image and collider of every tiled cell, and
/// nothing else: each entry comes from a tiled cell.
pub proof fn lemma_placed_states(m: Seq<Slot>)
    ensures
        forall|i: int| 0 <= i < m.len() && (#[trigger] m[i]).tile is Some ==> placed_states(m).contains(cell_state(m[i])),
        forall|k: int| 0 <= k < placed_states(m).len() ==> from_tiled_cell(m, #[trigger] placed_states(m)[k]),
    decreases m.len(),
{
    if m.len() > 0 {
        let front = m.drop_last();
        lemma_placed_states(front);
        let rest = placed_states(front);
        let ps = placed_states(m);
        let last = m.len() - 1;
        assert(m[last] == m.last());
        assert forall|k: int| 0 <= k < rest.len() implies ps[k] == rest[k] by {}
        assert forall|i: int| 0 <= i < m.len() && (#[trigger] m[i]).tile is Some implies ps.contains(cell_state(m[i])) by {
            if i < last {
                assert(front[i] == m[i]);
                assert(rest.contains(cell_state(front[i])));
                let k = choose|k: int| 0 <= k < rest.len() && rest[k] == cell_state(front[i]);
                assert(ps[k] == cell_state(m[i]));
            } else {
                assert(ps[ps.len() - 1] == cell_state(m[i]));
            }
        }
    }
    assert forall|k: int| 0 <= k < placed_states(m).len() implies from_tiled_cell(m, #[trigger] placed_states(m)[k]) by {
        lemma_placed_state_from(m, k);
    }
}

/// The tiles placed on the map, as they are stored: point, image and collider.
pub fn tile_states(tile_map: &TileMap) -> (states: Vec<TileState>)
    ensures
        states@.len() == placed_states(tile_map.slot_map@).len(),
        forall|k: int| 0 <= k < states@.len() ==> {
            let s = #[trigger] states@[k];
            let (p, name, collider) = placed_states(tile_map.slot_map@)[k];
            s.point == (p.x, p.y, p.z) && s.filename@ == name && s.collider == collider
        },
{
    let slots = &tile_map.slot_map;
    let mut states: Vec<TileState> = Vec::new();
    let mut i: usize = 0;
    while i < slots.len()
        invariant
            i <= slots@.len(),
            states@.len() == placed_states(slots@.take(i as int)).len(),
            forall|k: int| 0 <= k < states@.len() ==> {
                let s = #[trigger] states@[k];
                let (p, name, collider) = placed_states(slots@.take(i as int))[k];
                s.point == (p.x, p.y, p.z) && s.filename@ == name && s.collider == collider
            },
        decreases slots@.len() - i,
    {
        assert(slots@.take(i + 1).drop_last() =~= slots@.take(i as int));
        let ghost prev = placed_states(slots@.take(i as int));
        match &slots[i].tile {
            Some(t) => {
                let p = slots[i].point;
                states.push(TileState { point: (p.x, p.y, p.z), filename: t.filename.clone(), collider: t.collider });
                assert forall|k: int| 0 <= k < states@.len() implies {
                    let s = #[trigger] states@[k];
                    let (p, name, collider) = placed_states(slots@.take(i + 1))[k];
                    s.point == (p.x, p.y, p.z) && s.filename@ == name && s.collider == collider
                } by {
                    if k < prev.len() { assert(placed_states(slots@.take(i + 1))[k] == prev[k]); }
                }
            },
            None => {},
        }
        i = i + 1;
    }
    assert(slots@.take(slots@.len() as int) =~= slots@);
    states
}

/// The map chunk at chunk coordinates (`x`, `y`): centred on (`10x`, `10y`, 0), 64-pixel
/// textures, single-cell chunks, 20 by 20 cells on 2 layers, with no cells yet.
pub fn chunk_map(x: i32, y: i32) -> (tm: TileMap)
    requires
        i32::MIN < x * 10 - 10, x * 10 + 10 < i32::MAX,
        i32::MIN < y * 10 - 10, y * 10 + 10 < i32::MAX,
    ensures
        tm.center_point == (GridPoint { x: (x * 10) as i32, y: (y * 10) as i32, z: 0 }),
        tm.texture_size == (GridSize { x: 64, y: 64, z: 1 }),
        tm.chunk_size == (GridSize { x: 1, y: 1, z: 1 }),
        tm.map_size == (GridSize { x: 20, y: 20, z: 2 }),
        tm.slot_map@.len() == 0,
        tm.box_fits(),
        map_wf(tm.slot_map@),
{
    TileMap {
        center_point: GridPoint { x: x * 10, y: y * 10, z: 0 },
        texture_size: GridSize { x: 64, y: 64, z: 1 },
        chunk_size: GridSize { x: 1, y: 1, z: 1 },
        map_size: GridSize { x: 20, y: 20, z: 2 },
        slot_map: Vec::new(),
    }
}

} // verus!
