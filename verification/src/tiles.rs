//! Tiles of the map: how a tile collides, and which tiles may stand next to each other.
use vstd::prelude::*;
use crate::text::{has_char, same_text, string_of};

verus! {

/// The collider shape of a terrain tile.
#[derive(Clone, Copy, Debug, PartialEq, Eq, Structural)]
pub enum TileCollider {
    Nothing,
    Full,
    HalfTop,
    HalfBottom,
    HalfLeft,
    HalfRight,
    HalfFront,
    HalfBack,
    HalfCenter,
    HalfCenterX,
    HalfCenterY,
}

/// What a tile offers on one of its six sides (up, down, left, right, front, back):
/// anything, nothing, or one tag.
#[derive(Clone, Debug, PartialEq, Eq)]
pub enum TileJoint {
    All,
    Nothing,
    TagOne(String),
}

/// A tile: its image file, layer, weight in the random choice, collider and side joints.
#[derive(Clone, Debug, PartialEq, Eq)]
pub struct Tile {
    pub filename: String,
    pub layer: usize,
    pub rng_seed: u8,
    pub collider: TileCollider,
    pub joints: [TileJoint; 6],
}

/// The tag of open ground, `空`.
pub open spec fn empty_tag() -> Seq<char> {
    seq!['空']
}

/// A side tagged `tag` accepts a neighbour side tagged `t`: a tag that mentions `空`
/// without being `空` accepts only `空`; `空` accepts any tag that mentions `空`; any
/// other tag accepts only itself.
pub open spec fn tag_allows(tag: Seq<char>, t: Seq<char>) -> bool {
    if tag.contains('空') && tag != empty_tag() {
        t == empty_tag()
    } else if tag == empty_tag() {
        t.contains('空')
    } else {
        t == tag
    }
}

/// The tag rules: a tag without `空` accepts exactly itself; a tag that mentions `空` but is
/// not `空` accepts exactly `空`; `空` accepts exactly the tags that mention `空`. So the rule
/// is symmetric, and plain tags never touch open ground: two sides meet only as equal plain
/// tags, or as `空` against a tag that mentions `空`.
pub proof fn lemma_tag_rules(tag: Seq<char>, t: Seq<char>)
    ensures
        !tag.contains('空') ==> (tag_allows(tag, t) <==> t == tag),
        tag.contains('空') && tag != seq!['空'] ==> (tag_allows(tag, t) <==> t == seq!['空']),
        tag == seq!['空'] ==> (tag_allows(tag, t) <==> t.contains('空')),
        tag_allows(tag, t) == tag_allows(t, tag),
        !tag.contains('空') && t.contains('空') ==> !tag_allows(tag, t),
{
    let e = seq!['空'];
    assert(e[0] == '空');
    assert(e.contains('空'));
    if tag_allows(tag, t) != tag_allows(t, tag) {
        if t == e {
            assert(t.contains('空'));
        }
        if tag == e {
            assert(tag.contains('空'));
        }
    }
}

/// A neighbour's side `c` accepts a tile whose facing side is `j`.
/// A side that offers nothing accepts no tile at all.
pub open spec fn joint_allows(c: TileJoint, j: TileJoint) -> bool {
    match c {
        TileJoint::All => true,
        TileJoint::Nothing => false,
        TileJoint::TagOne(tag) => match j {
            TileJoint::All => true,
            TileJoint::Nothing => false,
            TileJoint::TagOne(t) => tag_allows(tag@, t@),
        },
    }
}

/// A tile fits under the six constraints `jl`, one per side.
pub open spec fn tile_fits(jl: Seq<TileJoint>, t: Tile) -> bool {
    forall|i: int| 0 <= i < 6 ==> #[trigger] joint_allows(jl[i], t.joints@[i])
}

/// The tiles of `sp` that fit under `jl`, in order.
pub open spec fn fitting(sp: Seq<Tile>, jl: Seq<TileJoint>) -> Seq<Tile>
    decreases sp.len(),
{
    if sp.len() == 0 {
        Seq::<Tile>::empty()
    } else if tile_fits(jl, sp.last()) {
        fitting(sp.drop_last(), jl).push(sp.last())
    } else {
        fitting(sp.drop_last(), jl)
    }
}

/// A joint as plain values: its kind (0 for `All`, 1 for `Nothing`, 2 for a tag) and the
/// text of its tag (empty for the other kinds).
pub type JointView = (u8, Seq<char>);

pub open spec fn joint_view(j: TileJoint) -> JointView {
    match j {
        TileJoint::All => (0u8, Seq::<char>::empty()),
        TileJoint::Nothing => (1u8, Seq::<char>::empty()),
        TileJoint::TagOne(t) => (2u8, t@),
    }
}

/// The six joints of a tile as plain values, side by side.
pub type JointsView = (JointView, JointView, JointView, JointView, JointView, JointView);

pub open spec fn joints_view(j: [TileJoint; 6]) -> JointsView {
    (
        joint_view(j@[0]),
        joint_view(j@[1]),
        joint_view(j@[2]),
        joint_view(j@[3]),
        joint_view(j@[4]),
        joint_view(j@[5]),
    )
}

/// A tile as plain values: image file, weight, collider and joints (its layer aside).
pub type TileView = (Seq<char>, u8, TileCollider, JointsView);

pub open spec fn tile_view(t: Tile) -> TileView {
    (t.filename@, t.rng_seed, t.collider, joints_view(t.joints))
}

/// A neighbour's side `c` accepts a side given as plain values.
pub open spec fn joint_allows_view(c: TileJoint, v: JointView) -> bool {
    match c {
        TileJoint::All => true,
        TileJoint::Nothing => false,
        TileJoint::TagOne(tag) => if v.0 == 0 { true } else if v.0 == 1 { false } else { tag_allows(tag@, v.1) },
    }
}

/// A tile given as plain values fits under the six constraints `jl`.
pub open spec fn view_fits(jl: Seq<TileJoint>, v: TileView) -> bool {
    &&& joint_allows_view(jl[0], v.3.0)
    &&& joint_allows_view(jl[1], v.3.1)
    &&& joint_allows_view(jl[2], v.3.2)
    &&& joint_allows_view(jl[3], v.3.3)
    &&& joint_allows_view(jl[4], v.3.4)
    &&& joint_allows_view(jl[5], v.3.5)
}

/// Every tile can be drawn: its weight is positive.
pub open spec fn all_weighted(sp: Seq<Tile>) -> bool {
    forall|i: int| 0 <= i < sp.len() ==> #[trigger] sp[i].rng_seed > 0
}

impl TileJoint {
    /// A copy of this joint.
    pub fn duplicate(&self) -> (r: TileJoint)
        ensures r == *self,
    {
        match self {
            TileJoint::All => TileJoint::All,
            TileJoint::Nothing => TileJoint::Nothing,
            TileJoint::TagOne(s) => TileJoint::TagOne(s.clone()),
        }
    }
}

impl Tile {
    /// A copy of this tile.
    pub fn duplicate(&self) -> (r: Tile)
        ensures r == *self,
    {
        let joints = [
            self.joints[0].duplicate(),
            self.joints[1].duplicate(),
            self.joints[2].duplicate(),
            self.joints[3].duplicate(),
            self.joints[4].duplicate(),
            self.joints[5].duplicate(),
        ];
        assert(joints =~= self.joints);
        Tile {
            filename: self.filename.clone(),
            layer: self.layer,
            rng_seed: self.rng_seed,
            collider: self.collider,
            joints,
        }
    }
}

/// Whether a side tagged `tag` accepts a neighbour side tagged `t`.
pub fn tag_accepts(tag: &str, t: &str) -> (res: bool)
    ensures res == tag_allows(tag@, t@),
{
    let open_ground = string_of("空");
    proof {
        reveal_strlit("空");
    }
    assert(open_ground@ =~= empty_tag());
    if has_char(tag, '空') && !same_text(tag, open_ground.as_str()) {
        same_text(t, open_ground.as_str())
    } else if same_text(tag, open_ground.as_str()) {
        has_char(t, '空')
    } else {
        same_text(t, tag)
    }
}

/// Whether a neighbour's side `c` accepts a tile whose facing side is `j`.
pub fn joint_accepts(c: &TileJoint, j: &TileJoint) -> (res: bool)
    ensures res == joint_allows(*c, *j),
{
    match c {
        TileJoint::All => true,
        TileJoint::Nothing => false,
        TileJoint::TagOne(tag) => match j {
            TileJoint::All => true,
            TileJoint::Nothing => false,
            TileJoint::TagOne(t) => tag_accepts(tag.as_str(), t.as_str()),
        },
    }
}

/// Whether `t` fits under the six constraints `jl`.
pub fn fits(jl: &[TileJoint; 6], t: &Tile) -> (res: bool)
    ensures res == tile_fits(jl@, *t),
{
    let mut i: usize = 0;
    while i < 6
        invariant i <= 6, forall|k: int| 0 <= k < i ==> #[trigger] joint_allows(jl@[k], t.joints@[k]),
        decreases 6 - i,
    {
        if !joint_accepts(&jl[i], &t.joints[i]) {
            return false;
        }
        i = i + 1;
    }
    true
}

/// The tiles of `superposition` that fit next to the neighbours' sides `jl`, in order.
/// A neighbour side that offers nothing leaves no tile.
pub fn filter_superposition(superposition: &Vec<Tile>, jl: &[TileJoint; 6]) -> (res: Vec<Tile>)
    ensures res@ == fitting(superposition@, jl@),
{
    let mut res: Vec<Tile> = Vec::new();
    let mut i: usize = 0;
    while i < superposition.len()
        invariant i <= superposition@.len(), res@ == fitting(superposition@.take(i as int), jl@),
        decreases superposition@.len() - i,
    {
        let t = &superposition[i];
        assert(superposition@.take(i + 1).drop_last() =~= superposition@.take(i as int));
        if fits(jl, t) {
            res.push(t.duplicate());
        }
        i = i + 1;
    }
    assert(superposition@.take(superposition@.len() as int) =~= superposition@);
    res
}

/// Every tile that fits is one of the candidates, and fits.
pub proof fn lemma_fitting(sp: Seq<Tile>, jl: Seq<TileJoint>)
    ensures
        fitting(sp, jl).len() <= sp.len(),
        forall|k: int| 0 <= k < fitting(sp, jl).len() ==>
            sp.contains(#[trigger] fitting(sp, jl)[k]) && tile_fits(jl, fitting(sp, jl)[k]),
    decreases sp.len(),
{
    if sp.len() > 0 {
        let t = sp.drop_last();
        lemma_fitting(t, jl);
        let f = fitting(sp, jl);
        assert forall|k: int| 0 <= k < f.len() implies
            sp.contains(#[trigger] f[k]) && tile_fits(jl, f[k]) by {
            let ft = fitting(t, jl);
            if k < ft.len() {
                assert(f[k] == ft[k]);
                let j = choose|j: int| 0 <= j < t.len() && t[j] == ft[k];
                assert(sp[j] == t[j]);
            } else {
                assert(f[k] == sp.last());
                assert(sp[sp.len() - 1] == sp.last());
            }
        }
    }
}

/// A candidate that fits is kept: the filter leaves no tile only when no candidate fits.
pub proof fn lemma_fitting_complete(sp: Seq<Tile>, jl: Seq<TileJoint>, t: Tile)
    requires sp.contains(t), tile_fits(jl, t),
    ensures fitting(sp, jl).len() > 0,
    decreases sp.len(),
{
    if sp.last() != t || !tile_fits(jl, sp.last()) {
        let k = choose|k: int| 0 <= k < sp.len() && sp[k] == t;
        if k == sp.len() - 1 {
            assert(sp.last() == t);
        } else {
            assert(sp.drop_last()[k] == t);
            lemma_fitting_complete(sp.drop_last(), jl, t);
        }
    }
}

/// A tile fits exactly when its plain values fit.
pub proof fn lemma_view_fits(jl: Seq<TileJoint>, t: Tile)
    ensures tile_fits(jl, t) == view_fits(jl, tile_view(t)),
{
    assert forall|k: int| 0 <= k < 6 implies joint_allows(jl[k], t.joints@[k])
        == joint_allows_view(jl[k], joint_view(t.joints@[k])) by {}
    if view_fits(jl, tile_view(t)) {
        assert forall|k: int| 0 <= k < 6 implies #[trigger] joint_allows(jl[k], t.joints@[k]) by {
            assert(joint_allows(jl[k], t.joints@[k]) == joint_allows_view(jl[k], joint_view(t.joints@[k])));
        }
    }
    if tile_fits(jl, t) {
        assert(joint_allows(jl[0], t.joints@[0]) && joint_allows(jl[1], t.joints@[1])
            && joint_allows(jl[2], t.joints@[2]) && joint_allows(jl[3], t.joints@[3])
            && joint_allows(jl[4], t.joints@[4]) && joint_allows(jl[5], t.joints@[5]));
    }
}

/// Keeping the tiles that fit keeps every tile drawable.
pub proof fn lemma_fitting_weighted(sp: Seq<Tile>, jl: Seq<TileJoint>)
    requires all_weighted(sp),
    ensures all_weighted(fitting(sp, jl)),
{
    lemma_fitting(sp, jl);
    let f = fitting(sp, jl);
    assert forall|k: int| 0 <= k < f.len() implies #[trigger] f[k].rng_seed > 0 by {
        assert(sp.contains(f[k]));
        let j = choose|j: int| 0 <= j < sp.len() && sp[j] == f[k];
        assert(sp[j].rng_seed > 0);
    }
}

} // verus!
