//! The blur behind the edge strips: a chain of targets, each half as large as
//! the one before, and the passes that go down the chain and up again.

use vstd::prelude::*;

verus! {

/// Number of targets in the chain.
pub const CHAIN_LEVELS: usize = 2;

/// Rounds of the inner passes unless configured otherwise.
pub const DEFAULT_BLUR_ITERATIONS: usize = 2;

/// Most rounds of the inner passes that can be configured.
pub const MAX_BLUR_ITERATIONS: usize = 12;

/// Half a side, and at least one pixel.
pub open spec fn halved(side: int) -> int {
    if side / 2 < 1 {
        1
    } else {
        side / 2
    }
}

/// A side, and at least one pixel.
pub open spec fn at_least_one(side: int) -> int {
    if side < 1 {
        1
    } else {
        side
    }
}

/// A side halved `level` times.
pub open spec fn halved_times(side: int, level: nat) -> int
    decreases level,
{
    if level == 0 {
        at_least_one(side)
    } else {
        halved(halved_times(side, (level - 1) as nat))
    }
}

/// Half a side, and at least one pixel.
pub fn half(side: u32) -> (out: u32)
    ensures
        out == halved(side as int),
        out >= 1,
{
    if side / 2 < 1 {
        1
    } else {
        side / 2
    }
}

/// The size of the scene target for a surface.
pub fn scene_size(width: u32, height: u32) -> (size: (u32, u32))
    ensures
        size.0 == at_least_one(width as int),
        size.1 == at_least_one(height as int),
{
    (
        if width < 1 {
            1
        } else {
            width
        },
        if height < 1 {
            1
        } else {
            height
        },
    )
}

/// The sizes of the targets in the chain.
pub fn chain_sizes(width: u32, height: u32) -> (sizes: Vec<(u32, u32)>)
    ensures
        sizes@.len() == CHAIN_LEVELS,
        forall|i: int|
            0 <= i < sizes@.len() ==> (#[trigger] sizes@[i]).0 == halved_times(
                width as int,
                (i + 1) as nat,
            ) && sizes@[i].1 == halved_times(height as int, (i + 1) as nat),
{
    let (mut w, mut h): (u32, u32) = scene_size(width, height);
    let mut sizes: Vec<(u32, u32)> = Vec::new();
    let mut level: usize = 0;
    while level < CHAIN_LEVELS
        invariant
            level <= CHAIN_LEVELS,
            sizes@.len() == level,
            w == halved_times(width as int, level as nat),
            h == halved_times(height as int, level as nat),
            forall|i: int|
                0 <= i < level ==> (#[trigger] sizes@[i]).0 == halved_times(
                    width as int,
                    (i + 1) as nat,
                ) && sizes@[i].1 == halved_times(height as int, (i + 1) as nat),
        decreases CHAIN_LEVELS - level,
    {
        w = half(w);
        h = half(h);
        sizes.push((w, h));
        level = level + 1;
    }
    sizes
}

/// Where a pass reads from or writes to.
#[derive(Copy, Clone, Debug, PartialEq, Eq, Structural)]
pub enum Slot {
    Scene,
    Chain(usize),
}

/// One fullscreen pass. `binding` counts the bindings of its direction.
#[derive(Copy, Clone, Debug, PartialEq, Eq, Structural)]
pub enum BlurPass {
    Down { binding: usize, target: usize },
    Up { binding: usize, target: usize },
}

/// What a binding of the way down samples: the scene, then each target.
pub open spec fn down_source(binding: usize) -> Slot {
    if binding == 0 {
        Slot::Scene
    } else {
        Slot::Chain((binding - 1) as usize)
    }
}

/// What a binding of the way up samples: the targets from the last one back.
pub open spec fn up_source(binding: usize) -> Slot {
    Slot::Chain((CHAIN_LEVELS - 1 - binding) as usize)
}

/// What a pass samples.
pub open spec fn source_of(pass: BlurPass) -> Slot {
    match pass {
        BlurPass::Down { binding, .. } => down_source(binding),
        BlurPass::Up { binding, .. } => up_source(binding),
    }
}

/// What a pass writes.
pub open spec fn target_of(pass: BlurPass) -> Slot {
    match pass {
        BlurPass::Down { target, .. } => Slot::Chain(target),
        BlurPass::Up { target, .. } => Slot::Chain(target),
    }
}

/// What a binding of the way down samples.
pub fn down_binding_source(binding: usize) -> (slot: Slot)
    ensures
        slot == down_source(binding),
{
    if binding == 0 {
        Slot::Scene
    } else {
        Slot::Chain(binding - 1)
    }
}

/// What a binding of the way up samples.
pub fn up_binding_source(binding: usize) -> (slot: Slot)
    requires
        binding < CHAIN_LEVELS,
    ensures
        slot == up_source(binding),
{
    Slot::Chain(CHAIN_LEVELS - 1 - binding)
}

/// The passes: down the chain and up again once, and then the innermost pair
/// once for each further round.
pub open spec fn passes(iterations: int) -> Seq<BlurPass>
    decreases iterations,
{
    if iterations <= 1 {
        seq![
            BlurPass::Down { binding: 0, target: 0 },
            BlurPass::Down { binding: 1, target: 1 },
            BlurPass::Up { binding: 0, target: 0 },
        ]
    } else {
        passes(iterations - 1) + seq![
            BlurPass::Down { binding: 1, target: 1 },
            BlurPass::Up { binding: 0, target: 0 },
        ]
    }
}

/// The passes of one blur.
pub fn blur_passes(iterations: usize) -> (list: Vec<BlurPass>)
    ensures
        list@ == passes(iterations as int),
{
    let mut list: Vec<BlurPass> = Vec::new();
    list.push(BlurPass::Down { binding: 0, target: 0 });
    list.push(BlurPass::Down { binding: CHAIN_LEVELS - 1, target: CHAIN_LEVELS - 1 });
    list.push(BlurPass::Up { binding: CHAIN_LEVELS - 2, target: 0 });
    assert(list@ =~= passes(1));
    let mut round: usize = 1;
    while round < iterations
        invariant
            1 <= round,
            round <= iterations || round == 1,
            list@ == passes(round as int),
        decreases iterations - round,
    {
        let ghost before = list@;
        list.push(BlurPass::Down { binding: CHAIN_LEVELS - 1, target: CHAIN_LEVELS - 1 });
        list.push(BlurPass::Up { binding: CHAIN_LEVELS - 2, target: 0 });
        round = round + 1;
        assert(list@ =~= passes(round as int));
    }
    list
}

/// Every pass reads what the pass before it wrote, the first one reads the
/// scene, and the result ends up in the first target of the chain.
pub proof fn passes_feed_each_other(iterations: int)
    ensures
        passes(iterations).len() > 0,
        source_of(passes(iterations)[0]) == Slot::Scene,
        forall|k: int|
            0 < k < passes(iterations).len() ==> source_of(#[trigger] passes(iterations)[k])
                == target_of(passes(iterations)[k - 1]),
        target_of(passes(iterations).last()) == Slot::Chain(0),
    decreases iterations,
{
    if iterations > 1 {
        passes_feed_each_other(iterations - 1);
        let before = passes(iterations - 1);
        let all = passes(iterations);
        let n = before.len() as int;
        assert forall|k: int| 0 < k < all.len() implies source_of(#[trigger] all[k]) == target_of(
            all[k - 1],
        ) by {
            if k < n {
                assert(all[k] == before[k] && all[k - 1] == before[k - 1]);
            } else if k == n {
                assert(all[k - 1] == before.last());
            }
        }
        assert(all[0] == before[0]);
    }
}

/// A target in the chain is never larger than the one before it, and never
/// empty.
pub proof fn chain_shrinks(side: int, level: nat)
    requires
        side >= 0,
    ensures
        1 <= halved_times(side, level + 1) <= halved_times(side, level),
    decreases level,
{
    if level > 0 {
        chain_shrinks(side, (level - 1) as nat);
    }
}

/// Half a side is rounded down, and is one pixel at least.
pub proof fn half_is_rounded_down(side: u32, out: u32, width: u32, height: u32, size: (u32, u32))
    requires
        call_ensures(half, (side,), out),
        call_ensures(scene_size, (width, height), size),
    ensures
        side < 2 ==> out == 1,
        side >= 2 ==> 2 * out <= side < 2 * (out + 1),
        width > 0 ==> size.0 == width,
        height > 0 ==> size.1 == height,
        width == 0 ==> size.0 == 1,
        height == 0 ==> size.1 == 1,
{
}

/// There are two targets: the first has half the sides of the scene, the second half
/// the sides of the first.
pub proof fn chain_halves_twice(
    width: u32,
    height: u32,
    scene: (u32, u32),
    sizes: Vec<(u32, u32)>,
    half_w: u32,
    half_h: u32,
    quarter_w: u32,
    quarter_h: u32,
)
    requires
        call_ensures(chain_sizes, (width, height), sizes),
        call_ensures(scene_size, (width, height), scene),
        call_ensures(half, (scene.0,), half_w),
        call_ensures(half, (scene.1,), half_h),
        call_ensures(half, (half_w,), quarter_w),
        call_ensures(half, (half_h,), quarter_h),
    ensures
        sizes@ == seq![(half_w, half_h), (quarter_w, quarter_h)],
{
    reveal_with_fuel(halved_times, 3);
    assert(sizes@[0].0 == halved_times(width as int, 1));
    assert(sizes@[1].0 == halved_times(width as int, 2));
    assert(sizes@ =~= seq![(half_w, half_h), (quarter_w, quarter_h)]);
}

/// The bindings down sample the scene and then each target, and those up the targets
/// from the last one back.
pub proof fn bindings_sample_their_sources(binding: usize, down: Slot, up: Slot)
    requires
        call_ensures(down_binding_source, (binding,), down),
        binding < 2 ==> call_ensures(up_binding_source, (binding,), up),
    ensures
        binding == 0 ==> down is Scene && up == Slot::Chain(1),
        binding == 1 ==> down == Slot::Chain(0) && up == Slot::Chain(0),
        binding > 1 ==> down == Slot::Chain((binding - 1) as usize),
{
}

/// A blur goes down from the scene to both targets and up to the first; each round
/// more goes down and up between the two once more.
pub proof fn rounds_go_down_and_up(
    few: usize,
    once: Vec<BlurPass>,
    n: usize,
    some: Vec<BlurPass>,
    more: Vec<BlurPass>,
)
    requires
        few <= 1,
        call_ensures(blur_passes, (few,), once),
        1 <= n < usize::MAX,
        call_ensures(blur_passes, (n,), some),
        call_ensures(blur_passes, ((n + 1) as usize,), more),
    ensures
        once@ == seq![
            BlurPass::Down { binding: 0, target: 0 },
            BlurPass::Down { binding: 1, target: 1 },
            BlurPass::Up { binding: 0, target: 0 },
        ],
        more@ == some@.push(BlurPass::Down { binding: 1, target: 1 }).push(
            BlurPass::Up { binding: 0, target: 0 },
        ),
{
    assert(more@ =~= some@.push(BlurPass::Down { binding: 1, target: 1 }).push(
        BlurPass::Up { binding: 0, target: 0 },
    ));
}

} // verus!
