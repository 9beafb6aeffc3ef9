//! What holds of the image store across its operations.

use crate::images::accounting;
use crate::images::compose;
use crate::images::entry::StoredView;
use crate::images::model;
use crate::images::model::{PendingKind, PixelsView, ResultView, StoreView};
use crate::images::preview;
use vstd::prelude::*;

verus! {

/// Ids never repeat back to back, and none is zero.
pub proof fn ids_differ(id: u32)
    ensures
        model::id_after(id) != id,
        model::id_after(id) >= 1,
{
}

/// Ids grow until all of them were used.
pub proof fn ids_grow(id: u32)
    requires
        id < u32::MAX,
    ensures
        model::id_after(id) == id + 1,
{
}

/// A new image is there at once, blank and pending, and takes no bytes.
pub proof fn reservation_is_blank(s: StoreView, now: u64)
    requires
        !s.images.contains_key(s.next_id),
    ensures
        ({
            let t = model::with_reservation(s, now);
            &&& t.images.contains_key(s.next_id)
            &&& t.images[s.next_id].image is None
            &&& t.images[s.next_id].preview is None
            &&& t.images[s.next_id].bytes == 0
            &&& t.total_bytes == s.total_bytes
        }),
{
}

/// A request that timed out is gone, with the image that it was for, and a result
/// that arrives for it later is dropped without a trace.
pub proof fn late_result_is_dropped(
    s: StoreView,
    now: u64,
    result: ResultView,
    nearest_filter: bool,
    later: u64,
)
    requires
        model::expired(s, now, result.pending_id),
    ensures
        ({
            let t = model::after_expiry(s, now);
            &&& !t.pending.contains_key(result.pending_id)
            &&& !t.images.contains_key(s.pending[result.pending_id].image_id)
            &&& model::delivered(t, result, nearest_filter, later) == (model::Effect {
                store: t,
                outcome: None,
                upload: None,
            })
        }),
{
    assert(model::expires(s, now, s.pending[result.pending_id].image_id));
}

/// Expiry takes exactly the images that an expired request was for, leaves the
/// others as they were, and gives back the bytes of those that go.
pub proof fn expiry_takes_the_image_and_its_bytes(s: StoreView, now: u64, id: u32)
    requires
        model::store_wf(s),
    ensures
        ({
            let t = model::after_expiry(s, now);
            &&& t.images.contains_key(id) == (s.images.contains_key(id) && !model::expires(
                s,
                now,
                id,
            ))
            &&& t.images.contains_key(id) ==> t.images[id] == s.images[id]
            &&& t.total_bytes == model::image_bytes(t.images)
            &&& t.total_bytes <= s.total_bytes
        }),
{
    accounting::expiry_keeps_wf(s, now);
}

/// A request within its timeout is not touched by expiry.
pub proof fn request_in_time_is_kept(s: StoreView, now: u64, pid: u32)
    requires
        s.pending.contains_key(pid),
        now - s.pending[pid].issued_at <= s.pending[pid].timeout,
    ensures
        model::after_expiry(s, now).pending.contains_key(pid),
        model::after_expiry(s, now).pending[pid] == s.pending[pid],
{
}

/// Every request is answered once: its result is reported under its token,
/// and a second result for it is dropped.
pub proof fn request_is_answered_once(
    s: StoreView,
    result: ResultView,
    second: ResultView,
    nearest_filter: bool,
    now: u64,
)
    requires
        s.pending.contains_key(result.pending_id),
        second.pending_id == result.pending_id,
    ensures
        ({
            let effect = model::delivered(s, result, nearest_filter, now);
            &&& effect.outcome matches Some((pid, _)) && pid.0 == result.pending_id
            &&& !effect.store.pending.contains_key(result.pending_id)
            &&& model::delivered(effect.store, second, nearest_filter, now).outcome is None
            &&& model::delivered(effect.store, second, nearest_filter, now).store == effect.store
        }),
{
}

/// An image that was taken in shows the texture that was ordered for it, has
/// a size, and is no longer pending.
pub proof fn taken_in_base_is_shown(
    s: StoreView,
    pid: u32,
    id: u32,
    pixels: PixelsView,
    keep_rgba: bool,
    label: Option<Seq<char>>,
    nearest_filter: bool,
    now: u64,
)
    requires
        s.total_bytes + model::charge(pixels.width, pixels.height, keep_rgba) <= s.cap_bytes,
    ensures
        ({
            let effect = model::base_decoded(
                s,
                pid,
                id,
                pixels,
                keep_rgba,
                label,
                nearest_filter,
                now,
            );
            let entry = effect.store.images[id];
            &&& effect.store.images.contains_key(id)
            &&& effect.upload is Some
            &&& entry.image == Some(effect.upload->0.image)
            &&& effect.upload->0.rgba == pixels.rgba
            &&& entry.base_dims == Some((pixels.width, pixels.height))
            &&& keep_rgba ==> entry.base_rgba == Some(pixels.rgba)
            &&& entry.preview == preview::preview_of(
                pixels.rgba,
                pixels.width as int,
                pixels.height as int,
            )
        }),
{
}

/// An image over the cap is refused and dropped; nothing that is already
/// there gives way to it.
pub proof fn refused_base_evicts_nothing_else(
    s: StoreView,
    pid: u32,
    id: u32,
    pixels: PixelsView,
    keep_rgba: bool,
    label: Option<Seq<char>>,
    nearest_filter: bool,
    now: u64,
    other: u32,
)
    requires
        s.total_bytes + model::charge(pixels.width, pixels.height, keep_rgba) > s.cap_bytes,
        other != id,
    ensures
        ({
            let t = model::base_decoded(
                s,
                pid,
                id,
                pixels,
                keep_rgba,
                label,
                nearest_filter,
                now,
            ).store;
            &&& !t.images.contains_key(id)
            &&& t.images.contains_key(other) == s.images.contains_key(other)
            &&& s.images.contains_key(other) ==> t.images[other] == s.images[other]
            &&& t.total_bytes == s.total_bytes
        }),
{
}

/// A frame that fails to decode leaves its image as it was.
pub proof fn failed_frame_leaves_image(
    s: StoreView,
    result: ResultView,
    nearest_filter: bool,
    now: u64,
)
    requires
        s.pending.contains_key(result.pending_id),
        s.pending[result.pending_id].kind is Frame,
        result.outcome is Err,
    ensures
        model::delivered(s, result, nearest_filter, now).store.images == s.images,
        model::delivered(s, result, nearest_filter, now).store.total_bytes == s.total_bytes,
{
}

/// The bytes of an image and the total move together when a frame is taken
/// in, be it a new one or one that replaces another.
pub proof fn frame_bytes_move_together(
    s: StoreView,
    pid: u32,
    id: u32,
    pixels: PixelsView,
    dst_x: u32,
    dst_y: u32,
    compose_base: Option<u32>,
    delay_ms: u32,
    target_slot: Option<u32>,
    label: Option<Seq<char>>,
    nearest_filter: bool,
    now: u64,
)
    requires
        model::store_wf(s),
        s.images.contains_key(id),
    ensures
        ({
            let t = model::frame_decoded(
                s,
                pid,
                id,
                pixels,
                dst_x,
                dst_y,
                compose_base,
                delay_ms,
                target_slot,
                label,
                nearest_filter,
                now,
            ).store;
            t.total_bytes - s.total_bytes == t.images[id].bytes - s.images[id].bytes
        }),
{
    let parent = s.images[id];
    accounting::bytes_of_one(s.images, id, model::id_end());
    assert(model::bytes_of(s.images, id) == parent.bytes);
    if parent.base_dims is Some {
        let (w, h) = parent.base_dims->0;
        accounting::charge_nonnegative(w, h, true);
        let place = model::frame_place(parent.frames, target_slot);
        if place < parent.frames.len() {
            accounting::frame_bytes_of_one(parent.frames, place);
        }
    }
}

/// A frame that replaces another costs what it costs and gives back what the
/// other did: for an image whose frames all cost the same, nothing changes.
pub proof fn replacing_frame_is_free(
    s: StoreView,
    pid: u32,
    id: u32,
    pixels: PixelsView,
    dst_x: u32,
    dst_y: u32,
    compose_base: Option<u32>,
    delay_ms: u32,
    target_slot: u32,
    label: Option<Seq<char>>,
    nearest_filter: bool,
    now: u64,
)
    requires
        model::store_wf(s),
        s.images.contains_key(id),
        s.images[id].base_dims is Some,
        2 <= target_slot,
        target_slot - 2 < s.images[id].frames.len(),
        ({
            let (w, h) = s.images[id].base_dims->0;
            s.images[id].frames[target_slot - 2].bytes == model::charge(w, h, true)
        }),
    ensures
        ({
            let t = model::frame_decoded(
                s,
                pid,
                id,
                pixels,
                dst_x,
                dst_y,
                compose_base,
                delay_ms,
                Some(target_slot),
                label,
                nearest_filter,
                now,
            ).store;
            &&& t.total_bytes == s.total_bytes
            &&& t.images[id].bytes == s.images[id].bytes
            &&& t.images[id].frames.len() == s.images[id].frames.len()
        }),
{
    let parent = s.images[id];
    let (w, h) = parent.base_dims->0;
    accounting::charge_nonnegative(w, h, true);
    accounting::bytes_of_one(s.images, id, model::id_end());
    assert(model::bytes_of(s.images, id) == parent.bytes);
}

/// The bytes of `w` by `h` RGBA pixels.
pub open spec fn pixel_bytes(w: u32, h: u32) -> int {
    w * h * 4
}

/// Whether all kept pixels of an image fill its size.
pub open spec fn full_size(entry: StoredView) -> bool {
    &&& entry.base_rgba matches Some(rgba) ==> entry.base_dims matches Some((w, h)) && rgba.len()
        == pixel_bytes(w, h)
    &&& entry.frames.len() > 0 ==> entry.base_dims is Some
    &&& entry.base_dims matches Some((w, h)) ==> forall|i: int|
        0 <= i < entry.frames.len() ==> (#[trigger] entry.frames[i]).rgba.len() == pixel_bytes(w, h)
}

/// A frame of an image whose pixels fill its size fills it too, wherever its
/// payload was placed and whatever it covers.
pub proof fn frame_fills_image(
    s: StoreView,
    pid: u32,
    id: u32,
    pixels: PixelsView,
    dst_x: u32,
    dst_y: u32,
    compose_base: Option<u32>,
    delay_ms: u32,
    target_slot: Option<u32>,
    label: Option<Seq<char>>,
    nearest_filter: bool,
    now: u64,
)
    requires
        s.images.contains_key(id),
        full_size(s.images[id]),
        pixels.rgba.len() == pixel_bytes(pixels.width, pixels.height),
    ensures
        ({
            let effect = model::frame_decoded(
                s,
                pid,
                id,
                pixels,
                dst_x,
                dst_y,
                compose_base,
                delay_ms,
                target_slot,
                label,
                nearest_filter,
                now,
            );
            &&& full_size(effect.store.images[id])
            &&& effect.upload matches Some(upload) ==> upload.rgba.len() == pixel_bytes(
                upload.image.width_px,
                upload.image.height_px,
            )
        }),
{
    let parent = s.images[id];
    if let Some((w, h)) = parent.base_dims {
        let source = model::compose_source(parent, compose_base, (w * h * 4) as nat);
        accounting::charge_nonnegative(w, h, false);
        assert(source.len() == pixel_bytes(w, h));
        compose::composing_keeps_size(
            source,
            w as int,
            h as int,
            pixels.rgba,
            pixels.width as int,
            pixels.height as int,
            dst_x as int,
            dst_y as int,
        );
    }
}

/// Mark and sweep: exactly the images in `keep` stay, unchanged, and the bytes
/// are exactly theirs.
pub proof fn sweep_keeps_exactly_the_marked(s: StoreView, keep: Set<u32>, id: u32)
    requires
        model::store_wf(s),
    ensures
        ({
            let t = model::retained(s, keep);
            &&& t.images.contains_key(id) == (s.images.contains_key(id) && keep.contains(id))
            &&& t.images.contains_key(id) ==> t.images[id] == s.images[id]
            &&& t.total_bytes == model::image_bytes(t.images)
            &&& t.total_bytes <= s.total_bytes
            &&& t.pending == s.pending
        }),
{
    accounting::retaining_keeps_wf(s, keep);
}

/// Sweeping with nothing marked empties the store.
pub proof fn sweep_of_everything(s: StoreView)
    requires
        model::store_wf(s),
    ensures
        model::retained(s, Set::empty()).images == Map::<u32, StoredView>::empty(),
        model::retained(s, Set::empty()).total_bytes == 0,
{
    let t = model::retained(s, Set::empty());
    assert(t.images =~= Map::<u32, StoredView>::empty());
    accounting::bytes_of_nothing(t.images, model::id_end());
}

/// A sweep that marks every image whose base is awaited leaves all of them
/// reserved, so that their results can still be taken in.
pub proof fn sweep_keeps_reservations(s: StoreView, keep: Set<u32>)
    requires
        model::reserved(s),
        forall|pid: u32| #[trigger]
            s.pending.contains_key(pid) && s.pending[pid].kind is Base ==> keep.contains(
                s.pending[pid].image_id,
            ),
    ensures
        model::reserved(model::retained(s, keep)),
{
}

/// As long as every awaited image is reserved, any run of results can be taken
/// in, and afterwards every image that is still awaited is still reserved.
pub proof fn reserved_results_are_deliverable(
    s: StoreView,
    results: Seq<ResultView>,
    nearest_filter: bool,
    now: u64,
)
    requires
        model::store_wf(s),
        model::reserved(s),
    ensures
        model::all_deliverable(s, results, nearest_filter, now),
        model::reserved(model::delivered_all(s, results, nearest_filter, now).store),
        model::store_wf(model::delivered_all(s, results, nearest_filter, now).store),
    decreases results.len(),
{
    if results.len() > 0 {
        let head = results.drop_last();
        reserved_results_are_deliverable(s, head, nearest_filter, now);
        let before = model::delivered_all(s, head, nearest_filter, now).store;
        accounting::delivery_keeps_wf(before, results.last(), nearest_filter, now);
        delivery_keeps_reservations(before, results.last(), nearest_filter, now);
        assert forall|i: int| 0 <= i < results.len() implies #[trigger] model::deliverable(
            model::delivered_all(s, results.take(i), nearest_filter, now).store,
            results[i],
        ) by {
            if i < head.len() {
                assert(head.take(i) =~= results.take(i));
                assert(model::deliverable(
                    model::delivered_all(s, head.take(i), nearest_filter, now).store,
                    head[i],
                ));
            } else {
                assert(results.take(i) =~= head);
            }
        }
    }
}

/// Taking in a result leaves the reservations of the images that are still
/// awaited.
proof fn delivery_keeps_reservations(
    s: StoreView,
    result: ResultView,
    nearest_filter: bool,
    now: u64,
)
    requires
        model::store_wf(s),
        model::reserved(s),
    ensures
        model::reserved(model::delivered(s, result, nearest_filter, now).store),
{
    let t = model::delivered(s, result, nearest_filter, now).store;
    if s.pending.contains_key(result.pending_id) {
        let request = s.pending[result.pending_id];
        assert forall|pid: u32| #[trigger]
            t.pending.contains_key(pid) && t.pending[pid].kind is Base implies t.images.contains_key(
            t.pending[pid].image_id,
        ) by {
            assert(s.pending.contains_key(pid) && s.pending[pid] == t.pending[pid]);
            if s.pending[pid].image_id != request.image_id {
                delivery_is_local(
                    s,
                    result,
                    nearest_filter,
                    now,
                    s.pending[pid].image_id,
                    pid,
                );
            }
        }
    }
}

/// Taking in a result leaves every other image and every other request as it
/// was.
pub proof fn delivery_is_local(
    s: StoreView,
    result: ResultView,
    nearest_filter: bool,
    now: u64,
    other: u32,
    other_pid: u32,
)
    requires
        s.pending.contains_key(result.pending_id),
        other != s.pending[result.pending_id].image_id,
        other_pid != result.pending_id,
    ensures
        ({
            let t = model::delivered(s, result, nearest_filter, now).store;
            &&& t.images.contains_key(other) == s.images.contains_key(other)
            &&& s.images.contains_key(other) ==> t.images[other] == s.images[other]
            &&& t.pending.contains_key(other_pid) == s.pending.contains_key(other_pid)
            &&& s.pending.contains_key(other_pid) ==> t.pending[other_pid] == s.pending[other_pid]
            &&& t.cap_bytes == s.cap_bytes
        }),
{
    match s.pending[result.pending_id].kind {
        PendingKind::Base { keep_rgba } => {},
        PendingKind::Frame { dst_x, dst_y, compose_base, delay_ms, target_slot } => {},
    }
}

} // verus!
