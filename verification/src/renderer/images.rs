//! The quads that images are drawn with: four corners and two triangles each.

use vstd::prelude::*;

verus! {

/// Most placements drawn in one frame.
pub const MAX_PLACEMENTS_PER_FRAME: usize = 256;

/// The corner of a quad that a place in its two triangles uses: top left, top
/// right, bottom right; top left, bottom right, bottom left.
pub open spec fn corner_of(place: int) -> int {
    if place == 0 || place == 3 {
        0
    } else if place == 1 {
        1
    } else if place == 2 || place == 4 {
        2
    } else {
        3
    }
}

/// The indices of `n` quads.
pub open spec fn quad_indices_of(n: nat) -> Seq<u16> {
    Seq::new(n * 6, |k: int| (k / 6 * 4 + corner_of(k % 6)) as u16)
}

/// The indices of `n` quads, for a buffer that is filled once.
pub fn quad_indices(n: usize) -> (indices: Vec<u16>)
    requires
        n <= 0x4000,
    ensures
        indices@ == quad_indices_of(n as nat),
{
    let mut indices: Vec<u16> = Vec::new();
    let mut i: usize = 0;
    while i < n
        invariant
            i <= n <= 0x4000,
            indices@ == quad_indices_of(i as nat),
        decreases n - i,
    {
        let ghost before = indices@;
        let base: u16 = (i * 4) as u16;
        indices.push(base);
        indices.push(base + 1);
        indices.push(base + 2);
        indices.push(base);
        indices.push(base + 2);
        indices.push(base + 3);
        proof {
            let after = quad_indices_of((i + 1) as nat);
            assert forall|k: int| 0 <= k < indices@.len() implies indices@[k] == after[k] by {
                if k < before.len() {
                    assert(indices@[k] == before[k]);
                } else {
                    let r = k - i * 6;
                    vstd::arithmetic::div_mod::lemma_fundamental_div_mod_converse(
                        k,
                        6,
                        i as int,
                        r,
                    );
                }
            }
            assert(indices@ =~= after);
        }
        i = i + 1;
    }
    indices
}

/// How many of the placements are drawn.
pub fn drawn(placements: usize) -> (n: usize)
    ensures
        n == if placements < MAX_PLACEMENTS_PER_FRAME {
            placements
        } else {
            MAX_PLACEMENTS_PER_FRAME
        },
{
    if placements < MAX_PLACEMENTS_PER_FRAME {
        placements
    } else {
        MAX_PLACEMENTS_PER_FRAME
    }
}

/// The range of indices of one quad: the first one, and one past the last.
pub fn quad_range(i: usize) -> (range: (u32, u32))
    requires
        i < MAX_PLACEMENTS_PER_FRAME,
    ensures
        range.0 == i * 6,
        range.1 == range.0 + 6,
{
    let first: u32 = (i * 6) as u32;
    (first, first + 6)
}

/// A quad's indices only reach its own four corners.
pub proof fn quads_keep_to_their_corners(n: nat, i: int, k: int)
    requires
        n <= 0x4000,
        0 <= i < n,
        i * 6 <= k < i * 6 + 6,
    ensures
        i * 4 <= quad_indices_of(n)[k] <= i * 4 + 3,
{
    vstd::arithmetic::div_mod::lemma_fundamental_div_mod_converse(k, 6, i, k - i * 6);
}

/// The indices of a quad name its four corners from the top left round: the first
/// three, and the first, the third and the fourth.
pub proof fn quad_goes_round_its_corners(
    n: usize,
    indices: Vec<u16>,
    i: usize,
    range: (u32, u32),
)
    requires
        call_ensures(quad_indices, (n,), indices),
        call_ensures(quad_range, (i,), range),
        n <= 0x4000,
        i < n,
    ensures
        indices@.len() == 6 * n,
        range.0 == 6 * i && range.1 == 6 * i + 6,
        indices@[6 * i] == 4 * i,
        indices@[6 * i + 1] == 4 * i + 1,
        indices@[6 * i + 2] == 4 * i + 2,
        indices@[6 * i + 3] == 4 * i,
        indices@[6 * i + 4] == 4 * i + 2,
        indices@[6 * i + 5] == 4 * i + 3,
{
    assert forall|r: int| 0 <= r < 6 implies #[trigger] indices@[6 * i + r] == 4 * i + corner_of(
        r,
    ) by {
        vstd::arithmetic::div_mod::lemma_fundamental_div_mod_converse(6 * i + r, 6, i as int, r);
    }
    assert(indices@[6 * i + 0] == 4 * i);
}

/// No more than 256 placements are drawn.
pub proof fn drawing_stops_at_the_limit(placements: usize, n: usize)
    requires
        call_ensures(drawn, (placements,), n),
    ensures
        n <= 256 && n <= placements,
        n == placements || n == 256,
{
}

} // verus!
