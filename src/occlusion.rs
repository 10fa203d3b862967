//! The six-bit per-voxel record of which faces are hidden by a neighbor.
use vstd::prelude::*;
use crate::voxel::Side;

verus! {

/// Mask of the six significant bits, one per cardinal side.
pub const FULL_OCCLUDED_MASK: u8 = 0x3f;

/// Bit `i` of `v`.
pub open spec fn bit(v: u8, i: u8) -> bool {
    (v >> i) & 1u8 == 1u8
}

/// Which of the six faces of a voxel are hidden by a neighbor: bit `i` stands for the
/// side at position `i` of the order Right, Left, Up, Down, Front, Back.
#[derive(Clone, Copy, Debug, PartialEq, Eq, Structural, Hash)]
pub struct FacesOcclusion(u8);

proof fn lemma_set_bit(v: u8, i: u8, j: u8)
    by (bit_vector)
    requires
        i < 8,
        j < 8,
    ensures
        i == j ==> ((v | (1u8 << i)) >> j) & 1u8 == 1u8,
        i != j ==> ((v | (1u8 << i)) >> j) & 1u8 == (v >> j) & 1u8,
        i == j ==> ((v & !(1u8 << i)) >> j) & 1u8 == 0u8,
        i != j ==> ((v & !(1u8 << i)) >> j) & 1u8 == (v >> j) & 1u8,
        v < 64 && i < 6 ==> (v | (1u8 << i)) < 64,
        v < 64 ==> (v & !(1u8 << i)) < 64,
        (v & (1u8 << i) == (1u8 << i)) == ((v >> i) & 1u8 == 1u8),
{
}

proof fn lemma_full_mask(v: u8)
    by (bit_vector)
    ensures
        (v & 0x3fu8 == 0x3fu8) == ((v >> 0u8) & 1u8 == 1u8 && (v >> 1u8) & 1u8 == 1u8 && (v
            >> 2u8) & 1u8 == 1u8 && (v >> 3u8) & 1u8 == 1u8 && (v >> 4u8) & 1u8 == 1u8 && (v
            >> 5u8) & 1u8 == 1u8),
        v == 0x3fu8 ==> forall|j: u8| j < 6 ==> #[trigger] ((v >> j) & 1u8) == 1u8,
        v == 0u8 ==> forall|j: u8| j < 8 ==> #[trigger] ((v >> j) & 1u8) == 0u8,
{
}

impl FacesOcclusion {
    /// Only the six side bits are ever set.
    pub closed spec fn wf(self) -> bool {
        self.0 < 64
    }

    /// Whether the face on `side` is occluded.
    pub closed spec fn occluded(self, side: Side) -> bool {
        bit(self.0, side.index_spec() as u8)
    }

    /// Whether all six faces are occluded.
    pub open spec fn fully_occluded(self) -> bool {
        forall|s: Side| #[trigger] self.occluded(s)
    }

    /// No face occluded.
    pub fn new() -> (r: FacesOcclusion)
        ensures
            r.wf(),
            forall|s: Side| !#[trigger] r.occluded(s),
    {
        proof {
            lemma_full_mask(0u8);
        }
        FacesOcclusion(0)
    }

    pub fn set_all(&mut self, occluded: bool)
        ensures
            final(self).wf(),
            forall|s: Side| #[trigger] final(self).occluded(s) == occluded,
    {
        if occluded {
            self.0 = FULL_OCCLUDED_MASK;
            proof {
                lemma_full_mask(0x3fu8);
            }
        } else {
            self.0 = 0;
            proof {
                lemma_full_mask(0u8);
            }
        }
    }

    pub fn is_fully_occluded(&self) -> (r: bool)
        ensures
            r == self.fully_occluded(),
    {
        proof {
            lemma_full_mask(self.0);
            assert(self.occluded(Side::Right) == bit(self.0, 0));
            assert(self.occluded(Side::Left) == bit(self.0, 1));
            assert(self.occluded(Side::Up) == bit(self.0, 2));
            assert(self.occluded(Side::Down) == bit(self.0, 3));
            assert(self.occluded(Side::Front) == bit(self.0, 4));
            assert(self.occluded(Side::Back) == bit(self.0, 5));
        }
        self.0 & FULL_OCCLUDED_MASK == FULL_OCCLUDED_MASK
    }

    pub fn is_occluded(&self, side: Side) -> (r: bool)
        ensures
            r == self.occluded(side),
    {
        let i = side.index() as u8;
        let mask: u8 = 1u8 << i;
        proof {
            lemma_set_bit(self.0, i, i);
        }
        self.0 & mask == mask
    }

    pub fn set(&mut self, side: Side, occluded: bool)
        requires
            old(self).wf(),
        ensures
            final(self).wf(),
            final(self).occluded(side) == occluded,
            forall|s: Side| s != side ==> #[trigger] final(self).occluded(s) == old(self).occluded(s),
    {
        let i = side.index() as u8;
        let mask: u8 = 1u8 << i;
        let v = self.0;
        if occluded {
            self.0 = v | mask;
        } else {
            self.0 = v & !mask;
        }
        proof {
            lemma_set_bit(v, i, i);
            assert forall|s: Side| s != side implies #[trigger] self.occluded(s) == old(self).occluded(s) by {
                lemma_set_bit(v, i, s.index_spec() as u8);
            }
        }
    }

    /// Builds the mask from one flag per side, flag `i` for the side at position `i`.
    pub fn from_flags(v: [bool; 6]) -> (r: FacesOcclusion)
        ensures
            r == flags_mask(v),
            r.wf(),
            forall|s: Side| #[trigger] r.occluded(s) == v@[s.index_spec() as int],
    {
        let b0: u8 = if v[0] { 1 } else { 0 };
        let b1: u8 = if v[1] { 1 } else { 0 };
        let b2: u8 = if v[2] { 1 } else { 0 };
        let b3: u8 = if v[3] { 1 } else { 0 };
        let b4: u8 = if v[4] { 1 } else { 0 };
        let b5: u8 = if v[5] { 1 } else { 0 };
        let r = FacesOcclusion(
            b0 | (b1 << 1u8) | (b2 << 2u8) | (b3 << 3u8) | (b4 << 4u8) | (b5 << 5u8),
        );
        proof {
            lemma_flag_bits(b0, b1, b2, b3, b4, b5);
            assert forall|s: Side| #[trigger] r.occluded(s) == v@[s.index_spec() as int] by {
                match s {
                    Side::Right => {},
                    Side::Left => {},
                    Side::Up => {},
                    Side::Down => {},
                    Side::Front => {},
                    Side::Back => {},
                }
            }
        }
        r
    }
}

/// One bit per flag: `1` for a set flag, `0` otherwise.
pub open spec fn flag_bit(b: bool) -> u8 {
    if b {
        1
    } else {
        0
    }
}

/// The mask whose bit `i` is flag `i`.
pub closed spec fn flags_mask(v: [bool; 6]) -> FacesOcclusion {
    FacesOcclusion(
        flag_bit(v@[0]) | (flag_bit(v@[1]) << 1u8) | (flag_bit(v@[2]) << 2u8) | (flag_bit(v@[3])
            << 3u8) | (flag_bit(v@[4]) << 4u8) | (flag_bit(v@[5]) << 5u8),
    )
}

proof fn lemma_flag_bits(b0: u8, b1: u8, b2: u8, b3: u8, b4: u8, b5: u8)
    by (bit_vector)
    requires
        b0 <= 1,
        b1 <= 1,
        b2 <= 1,
        b3 <= 1,
        b4 <= 1,
        b5 <= 1,
    ensures
        ({
            let m = b0 | (b1 << 1u8) | (b2 << 2u8) | (b3 << 3u8) | (b4 << 4u8) | (b5 << 5u8);
            &&& m < 64
            &&& (m >> 0u8) & 1u8 == b0
            &&& (m >> 1u8) & 1u8 == b1
            &&& (m >> 2u8) & 1u8 == b2
            &&& (m >> 3u8) & 1u8 == b3
            &&& (m >> 4u8) & 1u8 == b4
            &&& (m >> 5u8) & 1u8 == b5
        }),
{
}

impl From<[bool; 6]> for FacesOcclusion {
    fn from(v: [bool; 6]) -> (r: FacesOcclusion)
        ensures
            r == flags_mask(v),
    {
        FacesOcclusion::from_flags(v)
    }
}

impl vstd::std_specs::convert::FromSpecImpl<[bool; 6]> for FacesOcclusion {
    open spec fn obeys_from_spec() -> bool {
        true
    }

    open spec fn from_spec(v: [bool; 6]) -> FacesOcclusion {
        flags_mask(v)
    }
}

impl Default for FacesOcclusion {
    fn default() -> (r: FacesOcclusion)
        ensures
            r.wf(),
            forall|s: Side| !#[trigger] r.occluded(s),
    {
        FacesOcclusion::new()
    }
}

/// Setting every side makes the mask fully occluded; clearing every side leaves each
/// side visible.
pub proof fn lemma_set_all(after: FacesOcclusion, occluded: bool)
    requires
        forall|s: Side| #[trigger] after.occluded(s) == occluded,
    ensures
        occluded ==> after.fully_occluded(),
        !occluded ==> forall|s: Side| !#[trigger] after.occluded(s),
{
}

} // verus!
