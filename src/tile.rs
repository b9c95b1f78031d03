//! Tile codes, the wall catalog, and colliders made of rectangles.
use crate::geometry::{rect_overlap, rects_meet, Rect, Vec2, UNIT};
use vstd::prelude::*;

verus! {

/// Side of a square grid cell.
pub const TILE_SIZE: i64 = 32 * UNIT;

/// Bits of a raw tile code that keep the tile-set index: the flag nibble and
/// bit 6 are cleared.
pub const INDEX_MASK: u32 = 0x0FFF_FFBF;

#[derive(Clone, Copy, Debug, PartialEq, Eq, Structural)]
pub enum WallVarient {
    Staight,
    Elbow,
    WhiteStraight,
    WhiteElbow,
    TinyElbow,
    WhiteTinyElbow,
    WhitePillar,
}

#[derive(Clone, Copy, Debug, PartialEq, Eq, Structural)]
pub enum GroundVarient {
    Dirt,
    Wood,
    Grass,
    DirtQuarterEdge,
    DirtThreeQuarterEdge,
    DirtHalfEdge,
}

/// One of four quarter-turn orientations of a tile.
#[derive(Clone, Copy, Debug, PartialEq, Eq, Structural)]
pub enum TileRotation {
    Zero,
    One,
    Two,
    Three,
}

#[derive(Clone, Copy, Debug, PartialEq, Eq, Structural)]
pub struct Wall {
    pub varient: WallVarient,
    pub rotation: TileRotation,
}

/// A circle in world space.
#[derive(Clone, Copy, Debug, PartialEq, Eq, Structural)]
pub struct Circle {
    pub x: i64,
    pub y: i64,
    pub radius: i64,
}

#[derive(Clone, Copy, Debug, PartialEq, Eq, Structural)]
pub struct Ground {
    pub varient: GroundVarient,
    pub rotation: TileRotation,
}

/// The tile-set index held by a raw (non-zero) tile code, counted from 0.
pub open spec fn tile_index(raw: u32) -> u32 {
    ((raw - 1) as u32) & INDEX_MASK
}

pub open spec fn wall_varient_of(raw: u32) -> Option<WallVarient> {
    if raw == 0 {
        None
    } else {
        let i = tile_index(raw);
        if i == 0 {
            Some(WallVarient::Staight)
        } else if i == 1 {
            Some(WallVarient::Elbow)
        } else if i == 2 {
            Some(WallVarient::WhiteStraight)
        } else if i == 3 {
            Some(WallVarient::WhiteElbow)
        } else if i == 4 {
            Some(WallVarient::TinyElbow)
        } else if i == 5 {
            Some(WallVarient::WhiteTinyElbow)
        } else if i == 6 {
            Some(WallVarient::WhitePillar)
        } else {
            None
        }
    }
}

pub open spec fn ground_varient_of(raw: u32) -> Option<GroundVarient> {
    if raw == 0 {
        None
    } else {
        let i = tile_index(raw);
        if i == 0 {
            Some(GroundVarient::Dirt)
        } else if i == 1 {
            Some(GroundVarient::Wood)
        } else if i == 2 {
            Some(GroundVarient::Grass)
        } else if i == 5 {
            Some(GroundVarient::DirtQuarterEdge)
        } else if i == 6 {
            Some(GroundVarient::DirtThreeQuarterEdge)
        } else if i == 7 {
            Some(GroundVarient::DirtHalfEdge)
        } else {
            None
        }
    }
}

/// The orientation held in the top four bits of a raw tile code.
pub open spec fn rotation_of(raw: u32) -> Option<TileRotation> {
    let flags = raw >> 28u32;
    if flags == 0 {
        Some(TileRotation::Zero)
    } else if flags == 6 {
        Some(TileRotation::One)
    } else if flags == 0xA {
        Some(TileRotation::Two)
    } else if flags == 0xC {
        Some(TileRotation::Three)
    } else {
        None
    }
}

fn index_of(raw: u32) -> (r: u32)
    requires
        raw != 0,
    ensures
        r == tile_index(raw),
{
    (raw - 1) & INDEX_MASK
}

impl GroundVarient {
    /// Decodes the ground kind of a raw map code; `None` for an unknown kind.
    pub fn from_raw_u32(ground: u32) -> (r: Option<GroundVarient>)
        ensures
            r == ground_varient_of(ground),
    {
        if ground == 0 {
            return None;
        }
        match index_of(ground) {
            0 => Some(GroundVarient::Dirt),
            1 => Some(GroundVarient::Wood),
            2 => Some(GroundVarient::Grass),
            5 => Some(GroundVarient::DirtQuarterEdge),
            6 => Some(GroundVarient::DirtThreeQuarterEdge),
            7 => Some(GroundVarient::DirtHalfEdge),
            _ => None,
        }
    }
}

impl WallVarient {
    /// Decodes the wall kind of a raw map code; `None` for an unknown kind.
    pub fn from_raw_u32(wall: u32) -> (r: Option<WallVarient>)
        ensures
            r == wall_varient_of(wall),
    {
        if wall == 0 {
            return None;
        }
        match index_of(wall) {
            0 => Some(WallVarient::Staight),
            1 => Some(WallVarient::Elbow),
            2 => Some(WallVarient::WhiteStraight),
            3 => Some(WallVarient::WhiteElbow),
            4 => Some(WallVarient::TinyElbow),
            5 => Some(WallVarient::WhiteTinyElbow),
            6 => Some(WallVarient::WhitePillar),
            _ => None,
        }
    }
}

/// The strip that a straight wall occupies in each orientation, in local
/// tile space.
/// A rectangle given in whole world units.
pub open spec fn units_rect(x: int, y: int, width: int, height: int) -> Rect {
    Rect {
        x: (x * UNIT) as i64,
        y: (y * UNIT) as i64,
        width: (width * UNIT) as i64,
        height: (height * UNIT) as i64,
    }
}

pub open spec fn rotation_rect(r: TileRotation) -> Rect {
    match r {
        TileRotation::Zero => units_rect(0, 0, 10, 32),
        TileRotation::Two => units_rect(0, 0, 32, 10),
        TileRotation::One => units_rect(0, 22, 32, 10),
        TileRotation::Three => units_rect(22, 0, 10, 32),
    }
}

/// The next orientation in the cycle that elbow walls are built from.
pub open spec fn rotated(r: TileRotation) -> TileRotation {
    match r {
        TileRotation::Zero => TileRotation::One,
        TileRotation::One => TileRotation::Three,
        TileRotation::Two => TileRotation::Zero,
        TileRotation::Three => TileRotation::Two,
    }
}

pub open spec fn tiny_elbow_rect(r: TileRotation) -> Rect {
    match r {
        TileRotation::Zero => units_rect(0, 22, 10, 10),
        TileRotation::One => units_rect(22, 22, 10, 10),
        TileRotation::Two => units_rect(0, 0, 10, 10),
        TileRotation::Three => units_rect(22, 0, 10, 10),
    }
}

/// The collider of a wall in local tile space.
pub open spec fn wall_rects(w: Wall) -> Seq<Rect> {
    match w.varient {
        WallVarient::Staight | WallVarient::WhiteStraight => seq![rotation_rect(w.rotation)],
        WallVarient::Elbow | WallVarient::WhiteElbow => seq![
            rotation_rect(w.rotation),
            rotation_rect(rotated(w.rotation)),
        ],
        WallVarient::TinyElbow | WallVarient::WhiteTinyElbow => seq![tiny_elbow_rect(w.rotation)],
        WallVarient::WhitePillar => seq![
            units_rect(9, 9, 14, 14),
        ],
    }
}

/// Every rectangle of a local wall collider lies inside the tile's square.
pub open spec fn inside_tile(r: Rect) -> bool {
    0 <= r.x && r.x + r.width <= TILE_SIZE && 0 <= r.y && r.y + r.height <= TILE_SIZE
        && r.width >= 0 && r.height >= 0
}

impl TileRotation {
    /// Decodes the orientation flags of a raw map code; `None` for a flag
    /// pattern that names no orientation.
    pub fn from_raw_u32(tile: u32) -> (r: Option<TileRotation>)
        ensures
            r == rotation_of(tile),
    {
        let flags = tile >> 28;
        match flags {
            0x0 => Some(TileRotation::Zero),
            0x6 => Some(TileRotation::One),
            0xA => Some(TileRotation::Two),
            0xC => Some(TileRotation::Three),
            _ => None,
        }
    }

    /// The drawing angle of the orientation, in degrees.
    pub fn get_angle(&self) -> (r: i64)
        ensures
            r == match *self {
                TileRotation::Zero => 0i64,
                TileRotation::One => 270i64,
                TileRotation::Two => 90i64,
                TileRotation::Three => 180i64,
            },
    {
        match self {
            TileRotation::Zero => 0,
            TileRotation::One => 270,
            TileRotation::Two => 90,
            TileRotation::Three => 180,
        }
    }

    /// Where a tile drawn at this angle has its origin, relative to its cell.
    pub fn get_rotation_offset(&self) -> (r: Vec2)
        ensures
            r == match *self {
                TileRotation::Zero => Vec2 { x: 0, y: 0 },
                TileRotation::One => Vec2 { x: 0, y: TILE_SIZE },
                TileRotation::Two => Vec2 { x: TILE_SIZE, y: 0 },
                TileRotation::Three => Vec2 { x: TILE_SIZE, y: TILE_SIZE },
            },
    {
        match self {
            TileRotation::Zero => Vec2 { x: 0, y: 0 },
            TileRotation::One => Vec2 { x: 0, y: TILE_SIZE },
            TileRotation::Two => Vec2 { x: TILE_SIZE, y: 0 },
            TileRotation::Three => Vec2 { x: TILE_SIZE, y: TILE_SIZE },
        }
    }

    pub fn get_collider_rect(&self) -> (r: Rect)
        ensures
            r == rotation_rect(*self),
    {
        match self {
            TileRotation::Zero => Rect { x: 0, y: 0, width: 10 * UNIT, height: 32 * UNIT },
            TileRotation::Two => Rect { x: 0, y: 0, width: 32 * UNIT, height: 10 * UNIT },
            TileRotation::One => Rect { x: 0, y: 22 * UNIT, width: 32 * UNIT, height: 10 * UNIT },
            TileRotation::Three => Rect { x: 22 * UNIT, y: 0, width: 10 * UNIT, height: 32 * UNIT },
        }
    }

    pub fn rotate(&self) -> (r: TileRotation)
        ensures
            r == rotated(*self),
    {
        match self {
            TileRotation::Zero => TileRotation::One,
            TileRotation::One => TileRotation::Three,
            TileRotation::Two => TileRotation::Zero,
            TileRotation::Three => TileRotation::Two,
        }
    }
}

impl Wall {
    /// The wall's collider in local tile space.
    pub fn get_collider(&self) -> (r: Collider)
        ensures
            r.rects@ == wall_rects(*self),
    {
        match self.varient {
            WallVarient::Staight | WallVarient::WhiteStraight => Collider {
                rects: vec![self.rotation.get_collider_rect()],
            },
            WallVarient::Elbow | WallVarient::WhiteElbow => Collider {
                rects: vec![
                    self.rotation.get_collider_rect(),
                    self.rotation.rotate().get_collider_rect(),
                ],
            },
            WallVarient::TinyElbow | WallVarient::WhiteTinyElbow => Collider {
                rects: vec![
                    match self.rotation {
                        TileRotation::Zero => Rect::new(0, 22 * UNIT, 10 * UNIT, 10 * UNIT),
                        TileRotation::One => Rect::new(22 * UNIT, 22 * UNIT, 10 * UNIT, 10 * UNIT),
                        TileRotation::Two => Rect::new(0, 0, 10 * UNIT, 10 * UNIT),
                        TileRotation::Three => Rect::new(22 * UNIT, 0, 10 * UNIT, 10 * UNIT),
                    },
                ],
            },
            WallVarient::WhitePillar => Collider {
                rects: vec![Rect::new(9 * UNIT, 9 * UNIT, 14 * UNIT, 14 * UNIT)],
            },
        }
    }
}

/// Every rectangle of every wall lies inside its tile's square.
pub proof fn lemma_wall_rects_inside_tile(w: Wall)
    ensures
        forall|i: int| 0 <= i < wall_rects(w).len() ==> inside_tile(#[trigger] wall_rects(w)[i]),
{
}

/// A physical footprint: the union of its rectangles.
#[derive(Debug)]
pub struct Collider {
    pub rects: Vec<Rect>,
}

pub open spec fn rects_wf(s: Seq<Rect>) -> bool {
    forall|i: int| 0 <= i < s.len() ==> (#[trigger] s[i]).wf()
}

pub open spec fn shift_rect(r: Rect, offset: Vec2) -> Rect {
    Rect { x: (r.x + offset.x) as i64, y: (r.y + offset.y) as i64, width: r.width, height: r.height }
}

/// Every rectangle shifted by `offset`.
pub open spec fn translate(s: Seq<Rect>, offset: Vec2) -> Seq<Rect> {
    Seq::new(s.len(), |i: int| shift_rect(s[i], offset))
}

/// The first overlap of `a` with a rectangle of `bs`, from index `j` on.
pub open spec fn first_overlap_from(a: Rect, bs: Seq<Rect>, j: nat) -> Option<Rect>
    decreases bs.len() - j,
{
    if j >= bs.len() {
        None
    } else if rect_overlap(a, bs[j as int]) is Some {
        rect_overlap(a, bs[j as int])
    } else {
        first_overlap_from(a, bs, j + 1)
    }
}

/// The first overlap found when each rectangle of `a_rects` from index `i`
/// on, in order, is tested against each rectangle of `b_rects`, in order.
pub open spec fn collider_overlap_from(a_rects: Seq<Rect>, b_rects: Seq<Rect>, i: nat) -> Option<Rect>
    decreases a_rects.len() - i,
{
    if i >= a_rects.len() {
        None
    } else if first_overlap_from(a_rects[i as int], b_rects, 0) is Some {
        first_overlap_from(a_rects[i as int], b_rects, 0)
    } else {
        collider_overlap_from(a_rects, b_rects, i + 1)
    }
}

pub open spec fn collider_overlap(a_rects: Seq<Rect>, b_rects: Seq<Rect>) -> Option<Rect> {
    collider_overlap_from(a_rects, b_rects, 0)
}

/// Whether some rectangle of one collider meets some rectangle of the other.
pub open spec fn colliders_meet(a_rects: Seq<Rect>, b_rects: Seq<Rect>) -> bool {
    exists|i: int, j: int|
        0 <= i < a_rects.len() && 0 <= j < b_rects.len() && rects_meet(
            #[trigger] a_rects[i],
            #[trigger] b_rects[j],
        )
}

impl Collider {
    pub open spec fn wf(&self) -> bool {
        rects_wf(self.rects@)
    }

    /// The first overlap region between a rectangle of this collider and one
    /// of the other, or `None` where they do not meet.
    pub fn collides(&self, other_collider: &Self) -> (r: Option<Rect>)
        requires
            self.wf(),
            other_collider.wf(),
        ensures
            r == collider_overlap(self.rects@, other_collider.rects@),
            r is Some <==> colliders_meet(self.rects@, other_collider.rects@),
    {
        proof {
            lemma_collider_overlap_some(self.rects@, other_collider.rects@, 0);
        }
        let mut i: usize = 0;
        while i < self.rects.len()
            invariant
                self.wf(),
                other_collider.wf(),
                0 <= i <= self.rects.len(),
                collider_overlap(self.rects@, other_collider.rects@) == collider_overlap_from(
                    self.rects@,
                    other_collider.rects@,
                    i as nat,
                ),
            decreases self.rects.len() - i,
        {
            let mut j: usize = 0;
            while j < other_collider.rects.len()
                invariant
                    self.wf(),
                    other_collider.wf(),
                    0 <= i < self.rects.len(),
                    0 <= j <= other_collider.rects.len(),
                    collider_overlap(self.rects@, other_collider.rects@) == collider_overlap_from(
                        self.rects@,
                        other_collider.rects@,
                        i as nat,
                    ),
                    first_overlap_from(self.rects@[i as int], other_collider.rects@, 0)
                        == first_overlap_from(self.rects@[i as int], other_collider.rects@, j as nat),
                decreases other_collider.rects.len() - j,
            {
                let collision = self.rects[i].collision_rect(&other_collider.rects[j]);
                if collision.is_some() {
                    return collision;
                }
                j += 1;
            }
            i += 1;
        }
        None
    }

    /// A copy of the collider with every rectangle shifted by `pos`.
    pub fn with_pos(&self, pos: Vec2) -> (r: Collider)
        requires
            self.wf(),
            pos.in_range(),
            rects_wf(translate(self.rects@, pos)),
        ensures
            r.rects@ == translate(self.rects@, pos),
            r.wf(),
    {
        let mut rects: Vec<Rect> = Vec::new();
        let mut i: usize = 0;
        while i < self.rects.len()
            invariant
                self.wf(),
                pos.in_range(),
                rects_wf(translate(self.rects@, pos)),
                0 <= i <= self.rects.len(),
                rects@ == translate(self.rects@, pos).take(i as int),
            decreases self.rects.len() - i,
        {
            let rect = self.rects[i];
            assert(translate(self.rects@, pos)[i as int].wf());
            rects.push(
                Rect { x: rect.x + pos.x, y: rect.y + pos.y, width: rect.width, height: rect.height },
            );
            assert(rects@ =~= translate(self.rects@, pos).take(i as int + 1));
            i += 1;
        }
        assert(rects@ =~= translate(self.rects@, pos));
        Collider { rects }
    }
}

proof fn lemma_first_overlap_some(a: Rect, bs: Seq<Rect>, j: nat)
    ensures
        first_overlap_from(a, bs, j) is Some <==> exists|k: int|
            j <= k < bs.len() && rects_meet(a, #[trigger] bs[k]),
    decreases bs.len() - j,
{
    if j < bs.len() {
        lemma_first_overlap_some(a, bs, j + 1);
        if exists|k: int| j <= k < bs.len() && rects_meet(a, #[trigger] bs[k]) {
            let k = choose|k: int| j <= k < bs.len() && rects_meet(a, #[trigger] bs[k]);
            if k > j {
                assert(j + 1 <= k < bs.len() && rects_meet(a, bs[k]));
            }
        }
    }
}

proof fn lemma_collider_overlap_some(a_rects: Seq<Rect>, b_rects: Seq<Rect>, i: nat)
    ensures
        collider_overlap_from(a_rects, b_rects, i) is Some <==> exists|k: int, l: int|
            i <= k < a_rects.len() && 0 <= l < b_rects.len() && rects_meet(
                #[trigger] a_rects[k],
                #[trigger] b_rects[l],
            ),
    decreases a_rects.len() - i,
{
    if i < a_rects.len() {
        lemma_collider_overlap_some(a_rects, b_rects, i + 1);
        lemma_first_overlap_some(a_rects[i as int], b_rects, 0);
        if exists|k: int, l: int|
            i <= k < a_rects.len() && 0 <= l < b_rects.len() && rects_meet(
                #[trigger] a_rects[k],
                #[trigger] b_rects[l],
            ) {
            let (k, l) = choose|k: int, l: int|
                i <= k < a_rects.len() && 0 <= l < b_rects.len() && rects_meet(
                    #[trigger] a_rects[k],
                    #[trigger] b_rects[l],
                );
            if k > i {
                assert(i + 1 <= k < a_rects.len() && 0 <= l < b_rects.len() && rects_meet(
                    a_rects[k],
                    b_rects[l],
                ));
            } else {
                assert(0 <= l < b_rects.len() && rects_meet(a_rects[i as int], b_rects[l]));
            }
        }
    }
}

/// Whether two colliders overlap does not depend on their order; a single
/// pair of rectangles even gives the same overlap region both ways.
pub proof fn lemma_collides_symmetric(a_rects: Seq<Rect>, b_rects: Seq<Rect>)
    ensures
        collider_overlap(a_rects, b_rects) is Some <==> collider_overlap(b_rects, a_rects) is Some,
        a_rects.len() == 1 && b_rects.len() == 1 ==> collider_overlap(a_rects, b_rects)
            == collider_overlap(b_rects, a_rects),
{
    lemma_collider_overlap_some(a_rects, b_rects, 0);
    lemma_collider_overlap_some(b_rects, a_rects, 0);
    if collider_overlap(a_rects, b_rects) is Some {
        let (k, l) = choose|k: int, l: int|
            0 <= k < a_rects.len() && 0 <= l < b_rects.len() && rects_meet(
                #[trigger] a_rects[k],
                #[trigger] b_rects[l],
            );
        assert(rects_meet(b_rects[l], a_rects[k]));
    }
    if collider_overlap(b_rects, a_rects) is Some {
        let (k, l) = choose|k: int, l: int|
            0 <= k < b_rects.len() && 0 <= l < a_rects.len() && rects_meet(
                #[trigger] b_rects[k],
                #[trigger] a_rects[l],
            );
        assert(rects_meet(a_rects[l], b_rects[k]));
    }
    if a_rects.len() == 1 && b_rects.len() == 1 {
        assert(first_overlap_from(a_rects[0], b_rects, 1) is None);
        assert(first_overlap_from(b_rects[0], a_rects, 1) is None);
        assert(collider_overlap_from(a_rects, b_rects, 1) is None);
        assert(collider_overlap_from(b_rects, a_rects, 1) is None);
    }
}

/// Shifting a collider by an offset and then by the opposite offset gives
/// back the same rectangles.
pub proof fn lemma_translate_round_trip(s: Seq<Rect>, offset: Vec2)
    requires
        rects_wf(s),
        offset.in_range(),
        rects_wf(translate(s, offset)),
    ensures
        translate(translate(s, offset), Vec2 { x: (-offset.x) as i64, y: (-offset.y) as i64 }) == s,
{
    assert(translate(translate(s, offset), Vec2 { x: (-offset.x) as i64, y: (-offset.y) as i64 }) =~= s);
}

} // verus!
