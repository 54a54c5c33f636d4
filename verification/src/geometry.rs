//! Rectangles on a sheet: where a sprite sits, what it covers, and when two
//! of them collide.

use vstd::arithmetic::power2::is_pow2;
use vstd::prelude::*;

verus! {

/// Where one sprite sits on the sheet.
///
/// `width` and `height` are the footprint as placed: for a rotated sprite they
/// are the source image's height and width, in that order.
#[derive(Clone, Copy, Debug, PartialEq, Eq, Structural)]
pub struct Placement {
    pub x: u32,
    pub y: u32,
    pub width: u32,
    pub height: u32,
    pub rotated: bool,
}

impl Placement {
    /// The pixel `(px, py)` of the sheet lies under this placement.
    pub open spec fn covers(self, px: int, py: int) -> bool {
        self.x <= px < self.x + self.width && self.y <= py < self.y + self.height
    }

    /// The placement lies fully on a sheet of the given size.
    pub open spec fn within(self, sheet_width: int, sheet_height: int) -> bool {
        self.x + self.width <= sheet_width && self.y + self.height <= sheet_height
    }

    /// No pixel lies under both placements.
    pub open spec fn disjoint_from(self, other: Placement) -> bool {
        forall|px: int, py: int| !(#[trigger] self.covers(px, py) && other.covers(px, py))
    }

    /// The footprint is that of a `width` x `height` source, turned or not.
    pub open spec fn footprint_of(self, width: int, height: int) -> bool {
        if self.rotated {
            self.width == height && self.height == width
        } else {
            self.width == width && self.height == height
        }
    }

    /// Whether the placement lies fully on a sheet of the given size.
    pub fn fits_within(&self, sheet_width: u32, sheet_height: u32) -> (fits: bool)
        ensures
            fits == self.within(sheet_width as int, sheet_height as int),
    {
        self.width <= sheet_width && self.x <= sheet_width - self.width
            && self.height <= sheet_height && self.y <= sheet_height - self.height
    }

    /// Whether some pixel lies under both placements.
    pub fn overlaps(&self, other: &Placement) -> (hit: bool)
        ensures
            hit == !self.disjoint_from(*other),
    {
        let left: u64 = if self.x >= other.x { self.x as u64 } else { other.x as u64 };
        let top: u64 = if self.y >= other.y { self.y as u64 } else { other.y as u64 };
        let self_right: u64 = self.x as u64 + self.width as u64;
        let other_right: u64 = other.x as u64 + other.width as u64;
        let self_bottom: u64 = self.y as u64 + self.height as u64;
        let other_bottom: u64 = other.y as u64 + other.height as u64;
        let right: u64 = if self_right <= other_right { self_right } else { other_right };
        let bottom: u64 = if self_bottom <= other_bottom { self_bottom } else { other_bottom };
        let hit = left < right && top < bottom;
        proof {
            if hit {
                assert(self.covers(left as int, top as int) && other.covers(left as int, top as int));
            }
        }
        hit
    }
}

/// No two placements of the sequence share a pixel.
pub open spec fn pairwise_disjoint(placements: Seq<Placement>) -> bool {
    forall|i: int, j: int|
        0 <= i < placements.len() && 0 <= j < placements.len() && i != j
            ==> (#[trigger] placements[i]).disjoint_from(#[trigger] placements[j])
}

/// Every placement of the sequence lies fully on the sheet.
pub open spec fn all_within(placements: Seq<Placement>, sheet_width: int, sheet_height: int) -> bool {
    forall|i: int| 0 <= i < placements.len() ==> (#[trigger] placements[i]).within(sheet_width, sheet_height)
}

/// Sharing no pixel is mutual.
pub proof fn lemma_disjoint_symmetric(a: Placement, b: Placement)
    ensures
        a.disjoint_from(b) == b.disjoint_from(a),
{
    if a.disjoint_from(b) {
        assert forall|px: int, py: int| !(#[trigger] b.covers(px, py) && a.covers(px, py)) by {
            assert(!(a.covers(px, py) && b.covers(px, py)));
        }
    }
    if b.disjoint_from(a) {
        assert forall|px: int, py: int| !(#[trigger] a.covers(px, py) && b.covers(px, py)) by {
            assert(!(b.covers(px, py) && a.covers(px, py)));
        }
    }
}

/// Whether no two placements of the list share a pixel.
pub fn non_overlapping(placements: &Vec<Placement>) -> (ok: bool)
    ensures
        ok == pairwise_disjoint(placements@),
{
    let n = placements.len();
    let mut i: usize = 0;
    while i < n
        invariant
            n == placements.len(),
            i <= n,
            forall|a: int, b: int|
                0 <= a < i && a < b < n ==> (#[trigger] placements@[a]).disjoint_from(
                    #[trigger] placements@[b],
                ),
        decreases n - i,
    {
        let mut j: usize = i + 1;
        while j < n
            invariant
                n == placements.len(),
                i < n,
                i < j <= n,
                forall|a: int, b: int|
                    0 <= a < i && a < b < n ==> (#[trigger] placements@[a]).disjoint_from(
                        #[trigger] placements@[b],
                    ),
                forall|b: int| i < b < j ==> placements@[i as int].disjoint_from(#[trigger] placements@[b]),
            decreases n - j,
        {
            if placements[i].overlaps(&placements[j]) {
                return false;
            }
            j += 1;
        }
        i += 1;
    }
    proof {
        assert forall|a: int, b: int| 0 <= a < n && 0 <= b < n && a != b implies (
        #[trigger] placements@[a]).disjoint_from(#[trigger] placements@[b]) by {
            lemma_disjoint_symmetric(placements@[a], placements@[b]);
            if a < b {
                assert(placements@[a].disjoint_from(placements@[b]));
            } else {
                assert(placements@[b].disjoint_from(placements@[a]));
            }
        }
    }
    true
}

/// Whether `n` is a power of two.
pub fn is_power_of_two(n: u32) -> (yes: bool)
    ensures
        yes == is_pow2(n as int),
{
    let mut rest: u32 = n;
    while rest > 1 && rest % 2 == 0
        invariant
            is_pow2(rest as int) == is_pow2(n as int),
        decreases rest,
    {
        proof {
            reveal(is_pow2);
        }
        rest = rest / 2;
    }
    proof {
        reveal(is_pow2);
    }
    rest == 1
}

} // verus!
