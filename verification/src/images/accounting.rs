//! The store's byte accounting, and the proof that every event keeps the
//! store's invariant.

use crate::images::entry::{FrameView, StoredView};
use crate::images::model;
use crate::images::model::{bytes_of, PendingKind, PendingRequest, ResultView, StoreView};
use vstd::prelude::*;

verus! {

/// Changing one image changes the sum by that image's bytes.
pub proof fn bytes_after_change(
    before: Map<u32, StoredView>,
    after: Map<u32, StoredView>,
    id: u32,
    n: int,
)
    requires
        0 <= n <= model::id_end(),
        forall|k: u32|
            k != id ==> bytes_of(after, k) == #[trigger] bytes_of(before, k),
    ensures
        model::bytes_below(after, n) == model::bytes_below(before, n)
            + if id < n {
            bytes_of(after, id) - bytes_of(before, id)
        } else {
            0
        },
    decreases n,
{
    if n > 0 {
        bytes_after_change(before, after, id, n - 1);
        let k = (n - 1) as u32;
        assert(bytes_of(before, k) >= 0);
    }
}

/// Dropping images does not raise the sum.
pub proof fn bytes_after_drop(
    before: Map<u32, StoredView>,
    after: Map<u32, StoredView>,
    n: int,
)
    requires
        0 <= n <= model::id_end(),
        forall|k: u32| #[trigger] bytes_of(after, k) <= bytes_of(before, k),
    ensures
        0 <= model::bytes_below(after, n) <= model::bytes_below(
            before,
            n,
        ),
    decreases n,
{
    if n > 0 {
        bytes_after_drop(before, after, n - 1);
        let k = (n - 1) as u32;
        assert(bytes_of(after, k) <= bytes_of(before, k));
    }
}

/// A store without images has no bytes.
pub proof fn bytes_of_nothing(images: Map<u32, StoredView>, n: int)
    requires
        0 <= n <= model::id_end(),
        forall|k: u32| !(#[trigger] images.contains_key(k)),
    ensures
        model::bytes_below(images, n) == 0,
    decreases n,
{
    if n > 0 {
        bytes_of_nothing(images, n - 1);
        let k = (n - 1) as u32;
        assert(!images.contains_key(k));
    }
}

/// One image has no more bytes than all of them.
pub proof fn bytes_of_one(images: Map<u32, StoredView>, id: u32, n: int)
    requires
        id < n <= model::id_end(),
    ensures
        bytes_of(images, id) <= model::bytes_below(images, n),
        0 <= model::bytes_below(images, n),
    decreases n,
{
    bytes_after_drop(images, images, n - 1);
    if id < n - 1 {
        bytes_of_one(images, id, n - 1);
    }
}

/// Replacing one frame changes the sum by the difference of the two.
pub proof fn frame_bytes_after_update(frames: Seq<FrameView>, i: int, frame: FrameView)
    requires
        0 <= i < frames.len(),
    ensures
        model::frame_bytes(frames.update(i, frame))
            == model::frame_bytes(frames) - frames[i].bytes + frame.bytes,
    decreases frames.len(),
{
    let updated = frames.update(i, frame);
    if i == frames.len() - 1 {
        assert(updated.drop_last() =~= frames.drop_last());
    } else {
        frame_bytes_after_update(frames.drop_last(), i, frame);
        assert(updated.drop_last() =~= frames.drop_last().update(i, frame));
    }
}

/// One frame has no more bytes than all of them.
pub proof fn frame_bytes_of_one(frames: Seq<FrameView>, i: int)
    requires
        0 <= i < frames.len(),
    ensures
        0 <= frames[i].bytes <= model::frame_bytes(frames),
    decreases frames.len(),
{
    frame_bytes_nonnegative(frames.drop_last());
    if i < frames.len() - 1 {
        frame_bytes_of_one(frames.drop_last(), i);
    }
}

proof fn frame_bytes_nonnegative(frames: Seq<FrameView>)
    ensures
        model::frame_bytes(frames) >= 0,
    decreases frames.len(),
{
    if frames.len() > 0 {
        frame_bytes_nonnegative(frames.drop_last());
    }
}

/// Reserving an image under an id that no request waits for keeps the store's
/// invariant, and so does entering the request that is to fill it.
pub proof fn reserving_keeps_wf(s: StoreView, now: u64, kind: PendingKind, timeout: u64)
    requires
        model::store_wf(s),
        !model::awaited(s, s.next_id),
        kind is Base,
    ensures
        ({
            let request = PendingRequest { image_id: s.next_id, kind, issued_at: now, timeout };
            model::store_wf(
                model::with_pending(
                    model::with_reservation(s, now),
                    request,
                ),
            )
        }),
{
    let request = PendingRequest { image_id: s.next_id, kind, issued_at: now, timeout };
    let r = model::with_reservation(s, now);
    let t = model::with_pending(r, request);
    bytes_after_change(s.images, t.images, s.next_id, model::id_end());
    bytes_of_one(s.images, s.next_id, model::id_end());
    assert forall|pid: u32| #[trigger]
        t.pending.contains_key(pid) && t.pending[pid].kind is Base && t.images.contains_key(
            t.pending[pid].image_id,
        ) implies t.images[t.pending[pid].image_id].base_dims is None
        && t.images[t.pending[pid].image_id].frames.len() == 0
        && t.images[t.pending[pid].image_id].bytes == 0 by {
        if pid != s.next_pending {
            assert(s.pending.contains_key(pid));
        }
    }
    assert forall|p: u32, q: u32|
        #![trigger t.pending.contains_key(p), t.pending.contains_key(q)]
        t.pending.contains_key(p) && t.pending.contains_key(q) && t.pending[p].kind is Base
            && t.pending[q].kind is Base && t.pending[p].image_id
            == t.pending[q].image_id implies p == q by {
        if p != s.next_pending {
            assert(s.pending.contains_key(p));
        }
        if q != s.next_pending {
            assert(s.pending.contains_key(q));
        }
    }
}

/// Entering a request for a frame keeps the store's invariant.
pub proof fn frame_request_keeps_wf(s: StoreView, request: PendingRequest)
    requires
        model::store_wf(s),
        request.kind is Frame,
    ensures
        model::store_wf(model::with_pending(s, request)),
{
    let t = model::with_pending(s, request);
    assert forall|pid: u32| #[trigger]
        t.pending.contains_key(pid) && t.pending[pid].kind is Base implies s.pending.contains_key(
        pid,
    ) && s.pending[pid] == t.pending[pid] by {}
    assert forall|p: u32, q: u32|
        #![trigger t.pending.contains_key(p), t.pending.contains_key(q)]
        t.pending.contains_key(p) && t.pending.contains_key(q) && t.pending[p].kind is Base
            && t.pending[q].kind is Base && t.pending[p].image_id
            == t.pending[q].image_id implies p == q by {
        assert(s.pending.contains_key(p) && s.pending.contains_key(q));
    }
}

/// Dropping requests, and images without bytes, keeps the store's invariant.
pub proof fn dropping_keeps_wf(s: StoreView, t: StoreView)
    requires
        model::store_wf(s),
        t.images.submap_of(s.images),
        forall|id: u32| #[trigger]
            s.images.contains_key(id) && !t.images.contains_key(id) ==> s.images[id].bytes == 0,
        t.pending.submap_of(s.pending),
        t.total_bytes == s.total_bytes,
        t.cap_bytes == s.cap_bytes,
        t.next_id == s.next_id,
        t.next_pending == s.next_pending,
    ensures
        model::store_wf(t),
{
    assert forall|k: u32| #[trigger] bytes_of(t.images, k) == bytes_of(s.images, k) by {
        if t.images.contains_key(k) {
            assert(t.images.dom().contains(k));
            assert(s.images.dom().contains(k));
        }
    }
    bytes_after_drop(s.images, t.images, model::id_end());
    assert forall|k: u32| #[trigger] bytes_of(s.images, k) <= bytes_of(t.images, k) by {
        assert(bytes_of(t.images, k) == bytes_of(s.images, k));
    }
    bytes_after_drop(t.images, s.images, model::id_end());
    shrinking_keeps_wf(s, t);
}

/// Dropping requests, and images with their bytes, keeps the store's invariant.
pub proof fn shrinking_keeps_wf(s: StoreView, t: StoreView)
    requires
        model::store_wf(s),
        t.images.submap_of(s.images),
        t.pending.submap_of(s.pending),
        t.total_bytes == model::image_bytes(t.images),
        t.total_bytes <= s.total_bytes,
        t.cap_bytes == s.cap_bytes,
        t.next_id == s.next_id,
        t.next_pending == s.next_pending,
    ensures
        model::store_wf(t),
{
    assert forall|id: u32| #[trigger] t.images.contains_key(id) implies s.images.contains_key(id)
        && s.images[id] == t.images[id] by {
        assert(t.images.dom().contains(id));
    }
    assert forall|pid: u32| #[trigger] t.pending.contains_key(pid) implies s.pending.contains_key(
        pid,
    ) && s.pending[pid] == t.pending[pid] by {
        assert(t.pending.dom().contains(pid));
        assert(s.pending.dom().contains(pid));
    }
    assert forall|pid: u32| #[trigger]
        t.pending.contains_key(pid) && t.pending[pid].kind is Base && t.images.contains_key(
            t.pending[pid].image_id,
        ) implies t.images[t.pending[pid].image_id].base_dims is None
        && t.images[t.pending[pid].image_id].frames.len() == 0
        && t.images[t.pending[pid].image_id].bytes == 0 by {
        assert(s.pending.contains_key(pid));
        assert(s.images.contains_key(s.pending[pid].image_id));
    }
    assert forall|p: u32, q: u32|
        #![trigger t.pending.contains_key(p), t.pending.contains_key(q)]
        t.pending.contains_key(p) && t.pending.contains_key(q) && t.pending[p].kind is Base
            && t.pending[q].kind is Base && t.pending[p].image_id
            == t.pending[q].image_id implies p == q by {
        assert(s.pending.contains_key(p) && s.pending.contains_key(q));
    }
}

/// Dropping expired requests with their images keeps the store's invariant; the
/// total is then exactly the bytes of the images that stay, and never rises.
pub proof fn expiry_keeps_wf(s: StoreView, now: u64)
    requires
        model::store_wf(s),
    ensures
        model::store_wf(model::after_expiry(s, now)),
        model::after_expiry(s, now).total_bytes == model::image_bytes(
            model::after_expiry(s, now).images,
        ),
        model::after_expiry(s, now).total_bytes <= s.total_bytes,
{
    let t = model::after_expiry(s, now);
    bytes_after_drop(s.images, t.images, model::id_end());
    shrinking_keeps_wf(s, t);
}

/// Dropping unused images keeps the store's invariant; the total is then
/// exactly the bytes of the images that stay, and never rises.
pub proof fn retaining_keeps_wf(s: StoreView, keep: Set<u32>)
    requires
        model::store_wf(s),
    ensures
        model::store_wf(model::retained(s, keep)),
        model::retained(s, keep).total_bytes == model::image_bytes(
            model::retained(s, keep).images,
        ),
        model::retained(s, keep).total_bytes <= s.total_bytes,
{
    let r = model::retained(s, keep);
    assert forall|k: u32| #[trigger] bytes_of(r.images, k) <= bytes_of(s.images, k) by {}
    bytes_after_drop(s.images, r.images, model::id_end());
    shrinking_keeps_wf(s, r);
}

/// Taking in a decode result keeps the store's invariant: whatever arrives,
/// the cap holds.
pub proof fn delivery_keeps_wf(s: StoreView, result: ResultView, nearest_filter: bool, now: u64)
    requires
        model::store_wf(s),
        model::deliverable(s, result),
    ensures
        model::store_wf(
            model::delivered(s, result, nearest_filter, now).store,
        ),
{
    let pid = result.pending_id;
    let t = model::delivered(s, result, nearest_filter, now).store;
    if s.pending.contains_key(pid) {
        let request = s.pending[pid];
        let id = request.image_id;
        let rest = model::without_pending(s, pid);
        dropping_keeps_wf(s, rest);
        match result.outcome {
            Err(_) => {
                dropping_keeps_wf(rest, t);
            },
            Ok(pixels) => {
                match request.kind {
                    PendingKind::Base { keep_rgba } => {
                        let needed = model::charge(
                            pixels.width,
                            pixels.height,
                            keep_rgba,
                        );
                        charge_nonnegative(pixels.width, pixels.height, keep_rgba);
                        if s.total_bytes + needed > s.cap_bytes {
                            dropping_keeps_wf(rest, t);
                        } else {
                            bytes_after_change(
                                rest.images,
                                t.images,
                                id,
                                model::id_end(),
                            );
                            assert(s.images.contains_key(id));
                            assert(t.images[id].frames.len() == 0);
                            assert forall|p: u32| #[trigger]
                                t.pending.contains_key(p) && t.pending[p].kind is Base
                                    && t.images.contains_key(
                                    t.pending[p].image_id,
                                ) implies t.images[t.pending[p].image_id].base_dims is None
                                && t.images[t.pending[p].image_id].frames.len() == 0
                                && t.images[t.pending[p].image_id].bytes == 0 by {
                                assert(s.pending.contains_key(p) && s.pending.contains_key(pid));
                                assert(rest.pending.contains_key(p));
                                assert(t.pending[p].image_id != id);
                            }
                            assert forall|p: u32, q: u32|
                                #![trigger t.pending.contains_key(p), t.pending.contains_key(q)]
                                t.pending.contains_key(p) && t.pending.contains_key(q)
                                    && t.pending[p].kind is Base && t.pending[q].kind is Base
                                    && t.pending[p].image_id == t.pending[q].image_id implies p == q by {
                                assert(rest.pending.contains_key(p) && rest.pending.contains_key(q));
                            }
                        }
                    },
                    PendingKind::Frame { dst_x, dst_y, compose_base, delay_ms, target_slot } => {
                        if rest.images.contains_key(id) && rest.images[id].base_dims is Some {
                            let parent = rest.images[id];
                            let (w, h) = parent.base_dims->0;
                            let needed = model::charge(w, h, true);
                            charge_nonnegative(w, h, true);
                            if s.total_bytes + needed <= s.cap_bytes {
                                let place = model::frame_place(parent.frames, target_slot);
                                let frame = t.images[id].frames[place];
                                assert(t.images[id].frames =~= if place < parent.frames.len() {
                                    parent.frames.update(place, frame)
                                } else {
                                    parent.frames.push(frame)
                                });
                                frame_keeps_wf(rest, t, id, needed, target_slot, frame);
                            }
                        }
                    },
                }
            },
        }
    }
}

/// A charge is never negative.
pub proof fn charge_nonnegative(width: u32, height: u32, mirrored: bool)
    ensures
        model::charge(width, height, mirrored) >= 0,
{
    assert(width * height >= 0) by (nonlinear_arith)
        requires
            width >= 0,
            height >= 0,
    ;
}

/// Entering a frame keeps the invariant.
proof fn frame_keeps_wf(
    s: StoreView,
    t: StoreView,
    id: u32,
    needed: int,
    target_slot: Option<u32>,
    frame: FrameView,
)
    requires
        model::store_wf(s),
        s.images.contains_key(id),
        s.images[id].base_dims is Some,
        0 <= needed,
        s.total_bytes + needed <= s.cap_bytes,
        ({
            let parent = s.images[id];
            let place = model::frame_place(parent.frames, target_slot);
            let replaced: int = if place < parent.frames.len() {
                parent.frames[place].bytes as int
            } else {
                0
            };
            &&& t.next_id == s.next_id
            &&& t.next_pending == s.next_pending
            &&& t.pending == s.pending
            &&& t.cap_bytes == s.cap_bytes
            &&& t.total_bytes == model::less(
                s.total_bytes + needed,
                replaced,
            ) as usize
            &&& t.images.contains_key(id)
            &&& t.images == s.images.insert(id, t.images[id])
            &&& t.images[id].bytes == model::less(
                parent.bytes + needed,
                replaced,
            ) as usize
            &&& frame.bytes == needed
            &&& t.images[id].frames == if place < parent.frames.len() {
                parent.frames.update(place, frame)
            } else {
                parent.frames.push(frame)
            }
        }),
    ensures
        model::store_wf(t),
{
    let parent = s.images[id];
    let place = model::frame_place(parent.frames, target_slot);
    bytes_of_one(s.images, id, model::id_end());
    assert(bytes_of(s.images, id) == parent.bytes);
    frame_bytes_nonnegative(parent.frames);
    if place < parent.frames.len() {
        frame_bytes_of_one(parent.frames, place);
        frame_bytes_after_update(parent.frames, place, frame);
    } else {
        assert(parent.frames.push(frame).drop_last() =~= parent.frames);
    }
    bytes_after_change(s.images, t.images, id, model::id_end());
    assert forall|p: u32| #[trigger]
        t.pending.contains_key(p) && t.pending[p].kind is Base && t.images.contains_key(
            t.pending[p].image_id,
        ) implies t.images[t.pending[p].image_id].base_dims is None
        && t.images[t.pending[p].image_id].frames.len() == 0 by {
        assert(s.pending.contains_key(p));
        assert(t.pending[p].image_id != id);
        assert(s.images.contains_key(t.pending[p].image_id));
    }
}

} // verus!
