//! The glow: a bright pass, a blur of its result, and what it takes to be on.

use crate::renderer::blur;
use crate::renderer::blur::half;
use vstd::prelude::*;

verus! {

/// Rounds of the blur unless configured otherwise.
pub const DEFAULT_ITERATIONS: usize = 2;

/// Most rounds of the blur that can be configured.
pub const MAX_ITERATIONS: usize = 12;

/// The sizes of the bright target and of the scratch target behind it.
pub fn target_sizes(width: u32, height: u32) -> (sizes: ((u32, u32), (u32, u32)))
    ensures
        ({
            let (bright, scratch) = sizes;
            &&& bright.0 == blur::halved(width as int)
            &&& bright.1 == blur::halved(height as int)
            &&& scratch.0 == blur::halved(bright.0 as int)
            &&& scratch.1 == blur::halved(bright.1 as int)
        }),
{
    let bright: (u32, u32) = (half(width), half(height));
    let scratch: (u32, u32) = (half(bright.0), half(bright.1));
    (bright, scratch)
}

/// One fullscreen pass of the glow.
#[derive(Copy, Clone, Debug, PartialEq, Eq, Structural)]
pub enum GlowPass {
    /// The scene's bright parts into the bright target.
    Bright,
    /// The bright target into the scratch target.
    Down,
    /// The scratch target into the bright target.
    Up,
}

/// The passes: the bright pass, and then down and up once for each round, at
/// least once.
pub open spec fn passes(iterations: int) -> Seq<GlowPass>
    decreases iterations,
{
    if iterations <= 1 {
        seq![GlowPass::Bright, GlowPass::Down, GlowPass::Up]
    } else {
        passes(iterations - 1) + seq![GlowPass::Down, GlowPass::Up]
    }
}

/// The passes of one glow.
pub fn glow_passes(iterations: usize) -> (list: Vec<GlowPass>)
    ensures
        list@ == passes(iterations as int),
{
    let mut list: Vec<GlowPass> = Vec::new();
    list.push(GlowPass::Bright);
    list.push(GlowPass::Down);
    list.push(GlowPass::Up);
    assert(list@ =~= passes(1));
    let mut round: usize = 1;
    while round < iterations
        invariant
            1 <= round,
            round <= iterations || round == 1,
            list@ == passes(round as int),
        decreases iterations - round,
    {
        let ghost before = list@;
        list.push(GlowPass::Down);
        list.push(GlowPass::Up);
        round = round + 1;
        assert(list@ =~= passes(round as int));
    }
    list
}

/// Whether the glow is on: either way of matching is enough.
pub fn enabled(match_saturation: bool, match_bright_ansi: bool) -> (on: bool)
    ensures
        on == (match_saturation || match_bright_ansi),
{
    match_saturation || match_bright_ansi
}

/// The result of the glow ends up in the bright target, after as many rounds
/// as configured.
pub proof fn glow_ends_in_bright(iterations: int)
    ensures
        passes(iterations).last() == GlowPass::Up,
        passes(iterations).len() == 1 + 2 * (if iterations < 1 {
            1
        } else {
            iterations
        }),
    decreases iterations,
{
    if iterations > 1 {
        glow_ends_in_bright(iterations - 1);
    }
}

/// The bright target has half the sides of the surface, and the scratch target half
/// of its sides, rounded down and one pixel at least.
pub proof fn targets_halve(width: u32, height: u32, sizes: ((u32, u32), (u32, u32)))
    requires
        call_ensures(target_sizes, (width, height), sizes),
    ensures
        width < 2 ==> (sizes.0).0 == 1,
        width >= 2 ==> 2 * (sizes.0).0 <= width < 2 * ((sizes.0).0 + 1),
        height < 2 ==> (sizes.0).1 == 1,
        height >= 2 ==> 2 * (sizes.0).1 <= height < 2 * ((sizes.0).1 + 1),
        (sizes.0).0 < 2 ==> (sizes.1).0 == 1,
        (sizes.0).0 >= 2 ==> 2 * (sizes.1).0 <= (sizes.0).0 < 2 * ((sizes.1).0 + 1),
        (sizes.0).1 < 2 ==> (sizes.1).1 == 1,
        (sizes.0).1 >= 2 ==> 2 * (sizes.1).1 <= (sizes.0).1 < 2 * ((sizes.1).1 + 1),
{
}

/// A glow takes the bright parts, and goes down and up once for each round, but once
/// at least. It is on when anything is matched.
pub proof fn rounds_follow_the_bright_pass(
    few: usize,
    once: Vec<GlowPass>,
    n: usize,
    some: Vec<GlowPass>,
    more: Vec<GlowPass>,
    match_saturation: bool,
    match_bright_ansi: bool,
    on: bool,
)
    requires
        few <= 1,
        call_ensures(glow_passes, (few,), once),
        1 <= n < usize::MAX,
        call_ensures(glow_passes, (n,), some),
        call_ensures(glow_passes, ((n + 1) as usize,), more),
        call_ensures(enabled, (match_saturation, match_bright_ansi), on),
    ensures
        once@ == seq![GlowPass::Bright, GlowPass::Down, GlowPass::Up],
        more@ == some@.push(GlowPass::Down).push(GlowPass::Up),
        !on <==> !match_saturation && !match_bright_ansi,
{
    assert(more@ =~= some@.push(GlowPass::Down).push(GlowPass::Up));
}

} // verus!
