//! The bookkeeping of the present thread: which render targets are free, and
//! what the thread does with each message.

use vstd::prelude::*;

verus! {

/// Number of present-source targets. Two are enough for the main thread to
/// render one frame while the present thread shows the one before.
pub const POOL_SIZE: usize = 2;

/// The targets that the main thread is free to render into. A target leaves
/// the pool when it is handed out and comes back once the present thread is
/// done with it; an empty pool means that the frame is dropped.
#[derive(Debug, Clone)]
pub struct FreePool {
    pub free: Vec<usize>,
}

impl View for FreePool {
    type V = Seq<usize>;

    /// The free targets; the last one is handed out next.
    open spec fn view(&self) -> Seq<usize> {
        self.free@
    }
}

/// No target is free twice, and every free target is one of the `len` that
/// exist.
pub open spec fn sound_pool(free: Seq<usize>, len: nat) -> bool {
    &&& free.no_duplicates()
    &&& forall|i: int| 0 <= i < free.len() ==> #[trigger] free[i] < len
}

impl FreePool {
    /// A pool in which all `len` targets are free.
    pub fn new(len: usize) -> (pool: Self)
        ensures
            pool@ == Seq::new(len as nat, |i: int| i as usize),
            sound_pool(pool@, len as nat),
    {
        let mut free: Vec<usize> = Vec::new();
        let mut i: usize = 0;
        while i < len
            invariant
                i <= len,
                free@ == Seq::new(i as nat, |k: int| k as usize),
            decreases len - i,
        {
            free.push(i);
            i = i + 1;
            assert(free@ =~= Seq::new(i as nat, |k: int| k as usize));
        }
        FreePool { free }
    }

    /// Takes a free target, or `None` when every target is in flight. The
    /// target is not handed out again before it has been released.
    pub fn acquire(&mut self) -> (target: Option<usize>)
        ensures
            match target {
                Some(idx) => old(self)@.len() > 0 && idx == old(self)@.last() && final(self)@
                    == old(self)@.drop_last(),
                None => old(self)@.len() == 0 && final(self)@ == old(self)@,
            },
    {
        self.free.pop()
    }

    /// Whether a target is free.
    pub fn has_free(&self) -> (b: bool)
        ensures
            b == (self@.len() > 0),
    {
        self.free.len() > 0
    }

    /// Returns a target that the present thread has finished with.
    pub fn release(&mut self, idx: usize)
        ensures
            final(self)@ == old(self)@.push(idx),
    {
        self.free.push(idx);
    }
}

/// Handing out a target takes it out of the free set and keeps the rest sound.
pub proof fn acquire_removes(free: Seq<usize>, len: nat)
    requires
        sound_pool(free, len),
        free.len() > 0,
    ensures
        sound_pool(free.drop_last(), len),
        !free.drop_last().contains(free.last()),
        free.last() < len,
{
}

/// Returning a target that is in flight keeps the pool sound, and it can be
/// handed out again.
pub proof fn release_returns(free: Seq<usize>, len: nat, idx: usize)
    requires
        sound_pool(free, len),
        !free.contains(idx),
        idx < len,
    ensures
        sound_pool(free.push(idx), len),
        free.push(idx).last() == idx,
        free.push(idx).drop_last() == free,
{
    assert(free.push(idx).drop_last() =~= free);
}

/// A sound pool never holds more targets than exist: at most `len` can be
/// handed out before one comes back.
pub proof fn pool_is_bounded(free: Seq<usize>, len: nat)
    requires
        sound_pool(free, len),
    ensures
        free.len() <= len,
{
    let ints: Seq<int> = free.map_values(|x: usize| x as int);
    assert forall|i: int, j: int| 0 <= i < j < ints.len() implies ints[i] != ints[j] by {
        assert(free[i] != free[j]);
    }
    ints.unique_seq_to_set();
    let all = vstd::set_lib::set_int_range(0, len as int);
    vstd::set_lib::lemma_int_range(0, len as int);
    assert(ints.to_set().subset_of(all)) by {
        assert forall|x: int| ints.to_set().contains(x) implies all.contains(x) by {
            let i = choose|i: int| 0 <= i < ints.len() && ints[i] == x;
            assert(free[i] < len);
        }
    }
    vstd::set_lib::lemma_len_subset(ints.to_set(), all);
}

/// What the present thread is told.
#[derive(Copy, Clone, Debug, PartialEq, Eq, Structural)]
pub enum Msg {
    /// This target holds a finished frame.
    Frame(usize),
    /// The surface has a new size, and there are this many targets.
    Resize { width: u32, height: u32, targets: usize },
    /// The window goes away.
    Stop,
}

/// What the present thread does about a message.
#[derive(Copy, Clone, Debug, PartialEq, Eq, Structural)]
pub enum Step {
    /// Leave the loop.
    Stop,
    /// Configure the surface to its new size, and bind the new targets.
    Configure,
    /// Bind the new targets; an empty surface cannot be configured.
    Rebind,
    /// Acquire the surface and show this target on it.
    Show(usize),
    /// Return this target without showing it.
    Release(usize),
}

/// How acquiring the surface went.
#[derive(Copy, Clone, Debug, PartialEq, Eq, Structural)]
pub enum Acquired {
    Ready,
    /// The surface has changed or was lost.
    Stale,
    Failed,
}

/// What to do about an acquired surface.
#[derive(Copy, Clone, Debug, PartialEq, Eq, Structural)]
pub enum Next {
    /// Draw the target, present the surface, and return the target.
    Draw,
    /// Configure the surface and acquire it once more.
    Retry,
    /// Return the target without showing it.
    Release,
}

/// What the present thread knows of its surface.
#[derive(Copy, Clone, Debug, PartialEq, Eq, Structural)]
pub struct Surface {
    pub width: u32,
    pub height: u32,
    pub targets: usize,
}

/// The surface after a message.
pub open spec fn surface_after(s: Surface, msg: Msg) -> Surface {
    match msg {
        Msg::Resize { width, height, targets } => Surface { width, height, targets },
        _ => s,
    }
}

/// Whether a target can be shown.
pub open spec fn showable(s: Surface, idx: usize) -> bool {
    s.width > 0 && s.height > 0 && idx < s.targets
}

/// The step for a message.
pub open spec fn step_for(s: Surface, msg: Msg) -> Step {
    match msg {
        Msg::Stop => Step::Stop,
        Msg::Resize { width, height, targets } => if width > 0 && height > 0 {
            Step::Configure
        } else {
            Step::Rebind
        },
        Msg::Frame(idx) => if showable(s, idx) {
            Step::Show(idx)
        } else {
            Step::Release(idx)
        },
    }
}

impl Surface {
    /// Takes in a message and says what to do about it.
    pub fn on_message(&mut self, msg: Msg) -> (step: Step)
        ensures
            *final(self) == surface_after(*old(self), msg),
            step == step_for(*old(self), msg),
    {
        match msg {
            Msg::Stop => Step::Stop,
            Msg::Resize { width, height, targets } => {
                self.width = width;
                self.height = height;
                self.targets = targets;
                if width > 0 && height > 0 {
                    Step::Configure
                } else {
                    Step::Rebind
                }
            },
            Msg::Frame(idx) => {
                if self.width == 0 || self.height == 0 || idx >= self.targets {
                    Step::Release(idx)
                } else {
                    Step::Show(idx)
                }
            },
        }
    }
}

/// What to do about an acquired surface: one that has changed is configured
/// and acquired once more, but not twice.
pub fn after_acquire(acquired: Acquired, retried: bool) -> (next: Next)
    ensures
        next == match acquired {
            Acquired::Ready => Next::Draw,
            Acquired::Stale => if retried {
                Next::Release
            } else {
                Next::Retry
            },
            Acquired::Failed => Next::Release,
        },
{
    match acquired {
        Acquired::Ready => Next::Draw,
        Acquired::Stale => if retried {
            Next::Release
        } else {
            Next::Retry
        },
        Acquired::Failed => Next::Release,
    }
}

/// A frame is shown or returned, and nothing else: whatever the surface, the
/// step for it names its target.
pub proof fn frame_is_shown_or_returned(s: Surface, idx: usize)
    ensures
        step_for(s, Msg::Frame(idx)) == Step::Show(idx) || step_for(s, Msg::Frame(idx))
            == Step::Release(idx),
        surface_after(s, Msg::Frame(idx)) == s,
{
}

/// A surface without area shows no frame until it is resized.
pub proof fn minimized_surface_shows_nothing(s: Surface, width: u32, height: u32, targets: usize, idx:
    usize)
    requires
        width == 0 || height == 0,
    ensures
        step_for(surface_after(s, Msg::Resize { width, height, targets }), Msg::Frame(idx))
            == Step::Release(idx),
{
}

/// A new pool has every target once, in order.
pub proof fn new_pool_has_every_target(len: usize, pool: FreePool, i: int)
    requires
        call_ensures(FreePool::new, (len,), pool),
    ensures
        pool.free@.len() == len,
        0 <= i < len ==> pool.free@[i] == i,
{
}

/// What is released is what is handed out next, and then the pool is as before. An
/// empty pool hands out nothing.
pub proof fn released_target_is_handed_out(
    released: &mut FreePool,
    idx: usize,
    acquired: &mut FreePool,
    target: Option<usize>,
    empty: &mut FreePool,
    nothing: Option<usize>,
    any: bool,
)
    requires
        call_ensures(FreePool::release, (released, idx), ()),
        old(acquired).free@ == final(released).free@,
        call_ensures(FreePool::acquire, (acquired,), target),
        old(empty).free@.len() == 0,
        call_ensures(FreePool::acquire, (empty,), nothing),
        call_ensures(FreePool::has_free, (&*old(released),), any),
    ensures
        target == Some(idx),
        final(acquired).free@ == old(released).free@,
        nothing is None && final(empty).free@.len() == 0,
        any <==> old(released).free@.len() > 0,
{
    assert(old(released).free@.push(idx).drop_last() =~= old(released).free@);
}

/// A frame is shown when the surface has area and its target exists, and returned
/// otherwise; a resize takes over the size and the targets, and configures the
/// surface unless it has no area.
pub proof fn thread_shows_what_it_can(
    framed: &mut Surface,
    idx: usize,
    step: Step,
    resized: &mut Surface,
    width: u32,
    height: u32,
    targets: usize,
    resize_step: Step,
    stopped: &mut Surface,
    stop_step: Step,
)
    requires
        call_ensures(Surface::on_message, (framed, Msg::Frame(idx)), step),
        call_ensures(
            Surface::on_message,
            (resized, Msg::Resize { width, height, targets }),
            resize_step,
        ),
        call_ensures(Surface::on_message, (stopped, Msg::Stop), stop_step),
    ensures
        ({
            let s = *old(framed);
            let possible = s.width > 0 && s.height > 0 && idx < s.targets;
            &&& possible ==> step == Step::Show(idx)
            &&& !possible ==> step == Step::Release(idx)
        }),
        *final(framed) == *old(framed),
        width > 0 && height > 0 ==> resize_step is Configure,
        width == 0 || height == 0 ==> resize_step is Rebind,
        final(resized).width == width && final(resized).height == height,
        final(resized).targets == targets,
        stop_step is Stop && *final(stopped) == *old(stopped),
{
}

/// A surface that is ready is drawn to, one that changed is tried once more, and
/// after that or a failure the target is returned.
pub proof fn stale_surface_is_tried_once_more(
    ready: Next,
    stale: Next,
    stale_again: Next,
    failed: Next,
    retried: bool,
)
    requires
        call_ensures(after_acquire, (Acquired::Ready, retried), ready),
        call_ensures(after_acquire, (Acquired::Stale, false), stale),
        call_ensures(after_acquire, (Acquired::Stale, true), stale_again),
        call_ensures(after_acquire, (Acquired::Failed, retried), failed),
    ensures
        ready is Draw && stale is Retry && stale_again is Release && failed is Release,
{
}

} // verus!
