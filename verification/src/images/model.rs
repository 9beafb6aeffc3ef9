//! The image store as a mathematical state, and what each event does to it.

use crate::images::compose::composed;
use crate::images::decode::DecodeError;
use crate::images::entry;
use crate::images::entry::{FrameSlot, FrameView, GpuImage, StoredView, TextureKey};
use crate::images::preview;
use vstd::prelude::*;

verus! {

/// Handle of an image in the store.
#[derive(Copy, Clone, Debug, Eq, PartialEq, Hash, Structural)]
pub struct ImageId(pub u32);

/// Token that ties a decode request to its outcome.
#[derive(Copy, Clone, Debug, Eq, PartialEq, Hash, Structural)]
pub struct PendingId(pub u32);

/// What a pending decode fills once it is done.
#[derive(Copy, Clone, Debug, Eq, PartialEq, Structural)]
pub enum PendingKind {
    /// The base of an image; `keep_rgba` keeps its pixels for later frames.
    Base { keep_rgba: bool },
    /// A frame, composed at `(dst_x, dst_y)` onto the frame that
    /// `compose_base` names (0 is the base, none is the newest frame). A
    /// `target_slot` of 2 or more replaces the frame in that place (2 is the
    /// first after the base) where there is one; otherwise the frame is
    /// appended.
    Frame {
        dst_x: u32,
        dst_y: u32,
        compose_base: Option<u32>,
        delay_ms: u32,
        target_slot: Option<u32>,
    },
}

/// A decode request in flight. Times are nanoseconds of a monotonic clock.
#[derive(Copy, Clone, Debug, Eq, PartialEq, Structural)]
pub struct PendingRequest {
    pub image_id: u32,
    pub kind: PendingKind,
    pub issued_at: u64,
    pub timeout: u64,
}

/// The pixels of a decoded image.
#[derive(Debug)]
pub struct DecodedPixels {
    pub rgba: Vec<u8>,
    pub width: u32,
    pub height: u32,
}

/// What [`DecodedPixels`] holds.
#[verifier::ext_equal]
pub struct PixelsView {
    pub rgba: Seq<u8>,
    pub width: u32,
    pub height: u32,
}

impl View for DecodedPixels {
    type V = PixelsView;

    open spec fn view(&self) -> PixelsView {
        PixelsView { rgba: self.rgba@, width: self.width, height: self.height }
    }
}

/// The contents of an optional label.
pub open spec fn label_view(label: Option<String>) -> Option<Seq<char>> {
    match label {
        Some(s) => Some(s@),
        None => None,
    }
}

/// A payload for the decode worker.
#[derive(Debug)]
pub struct DecodeJob {
    pub pending_id: u32,
    pub bytes: Vec<u8>,
    pub max_pixels: u64,
    pub label: Option<String>,
}

/// What a [`DecodeJob`] holds.
#[verifier::ext_equal]
pub struct JobView {
    pub pending_id: u32,
    pub bytes: Seq<u8>,
    pub max_pixels: u64,
    pub label: Option<Seq<char>>,
}

impl View for DecodeJob {
    type V = JobView;

    open spec fn view(&self) -> JobView {
        JobView {
            pending_id: self.pending_id,
            bytes: self.bytes@,
            max_pixels: self.max_pixels,
            label: label_view(self.label),
        }
    }
}

/// What the decode worker made of a payload.
#[derive(Debug)]
pub struct DecodeResult {
    pub pending_id: u32,
    pub label: Option<String>,
    pub outcome: Result<DecodedPixels, DecodeError>,
}

/// What a [`DecodeResult`] holds.
#[verifier::ext_equal]
pub struct ResultView {
    pub pending_id: u32,
    pub label: Option<Seq<char>>,
    pub outcome: Result<PixelsView, DecodeError>,
}

impl View for DecodeResult {
    type V = ResultView;

    open spec fn view(&self) -> ResultView {
        ResultView {
            pending_id: self.pending_id,
            label: label_view(self.label),
            outcome: match self.outcome {
                Ok(pixels) => Ok(pixels@),
                Err(e) => Err(e),
            },
        }
    }
}

/// A texture to upload: its place and size, and its pixels.
#[derive(Debug)]
pub struct Upload {
    pub image: GpuImage,
    pub rgba: Vec<u8>,
    pub nearest_filter: bool,
    pub label: Option<String>,
}

/// What an [`Upload`] holds.
#[verifier::ext_equal]
pub struct UploadView {
    pub image: GpuImage,
    pub rgba: Seq<u8>,
    pub nearest_filter: bool,
    pub label: Option<Seq<char>>,
}

impl View for Upload {
    type V = UploadView;

    open spec fn view(&self) -> UploadView {
        UploadView {
            image: self.image,
            rgba: self.rgba@,
            nearest_filter: self.nearest_filter,
            label: label_view(self.label),
        }
    }
}

/// One finished request.
pub type Outcome = (PendingId, Result<ImageId, DecodeError>);

/// The state of the store.
#[verifier::ext_equal]
pub struct StoreView {
    pub next_id: u32,
    pub images: Map<u32, StoredView>,
    pub total_bytes: usize,
    pub cap_bytes: usize,
    pub next_pending: u32,
    pub pending: Map<u32, PendingRequest>,
    pub jobs: Seq<JobView>,
    pub immediate_results: Seq<ResultView>,
}

/// The id after `id`; zero is never an id.
pub open spec fn id_after(id: u32) -> u32 {
    if id == u32::MAX {
        1
    } else {
        (id + 1) as u32
    }
}

/// The bytes of the images with ids below `n`.
pub open spec fn bytes_below(images: Map<u32, StoredView>, n: int) -> int
    decreases n,
{
    if n <= 0 {
        0
    } else {
        let id = (n - 1) as u32;
        bytes_below(images, n - 1) + if images.contains_key(id) {
            images[id].bytes as int
        } else {
            0
        }
    }
}

/// One past the largest id.
pub open spec fn id_end() -> int {
    0x1_0000_0000
}

/// The bytes of all images.
pub open spec fn image_bytes(images: Map<u32, StoredView>) -> int {
    bytes_below(images, id_end())
}

/// The bytes of a run of frames.
pub open spec fn frame_bytes(frames: Seq<FrameView>) -> int
    decreases frames.len(),
{
    if frames.len() == 0 {
        0
    } else {
        frame_bytes(frames.drop_last()) + frames.last().bytes
    }
}

/// Whether the base of this image is still to come.
pub open spec fn awaited(s: StoreView, id: u32) -> bool {
    exists|pid: u32| #[trigger]
        s.pending.contains_key(pid) && s.pending[pid].kind is Base && s.pending[pid].image_id == id
}

/// The store's invariant. The total is that of the images' bytes and stays
/// within the cap; the frames of an image are covered by its bytes; and at most
/// one request is to fill the base of an image, which until then has neither
/// size nor frames nor bytes.
pub open spec fn store_wf(s: StoreView) -> bool {
    &&& image_bytes(s.images) == s.total_bytes
    &&& s.total_bytes <= s.cap_bytes
    &&& s.next_id >= 1
    &&& s.next_pending >= 1
    &&& forall|id: u32| #[trigger]
        s.images.contains_key(id) ==> frame_bytes(s.images[id].frames) <= s.images[id].bytes
    &&& forall|pid: u32| #[trigger]
        s.pending.contains_key(pid) && s.pending[pid].kind is Base && s.images.contains_key(
            s.pending[pid].image_id,
        ) ==> {
            &&& s.images[s.pending[pid].image_id].base_dims is None
            &&& s.images[s.pending[pid].image_id].frames.len() == 0
            &&& s.images[s.pending[pid].image_id].bytes == 0
        }
    &&& forall|p: u32, q: u32|
        #![trigger s.pending.contains_key(p), s.pending.contains_key(q)]
        s.pending.contains_key(p) && s.pending.contains_key(q) && s.pending[p].kind is Base
            && s.pending[q].kind is Base && s.pending[p].image_id == s.pending[q].image_id ==> p
            == q
}

/// The bytes of one image, if it is there.
pub open spec fn bytes_of(images: Map<u32, StoredView>, id: u32) -> int {
    if images.contains_key(id) {
        images[id].bytes as int
    } else {
        0
    }
}

/// The store after a new image was reserved under the next id. An image that
/// had this id before, in an earlier round of ids, goes with its bytes.
pub open spec fn with_reservation(s: StoreView, now: u64) -> StoreView {
    StoreView {
        next_id: id_after(s.next_id),
        images: s.images.insert(s.next_id, entry::reservation(now)),
        total_bytes: (s.total_bytes - bytes_of(s.images, s.next_id)) as usize,
        ..s
    }
}

/// The store after a request was entered under the next token.
pub open spec fn with_pending(s: StoreView, request: PendingRequest) -> StoreView {
    StoreView {
        next_pending: id_after(s.next_pending),
        pending: s.pending.insert(s.next_pending, request),
        ..s
    }
}

/// A frame's compose base as an index into base and frames, from the 1-based
/// number that a client gives.
pub open spec fn compose_index(compose_base: Option<u32>) -> Option<u32> {
    match compose_base {
        Some(n) => if n <= 1 {
            Some(0u32)
        } else {
            Some((n - 1) as u32)
        },
        None => None,
    }
}

/// Whether a request has waited longer than its timeout.
pub open spec fn expired(s: StoreView, now: u64, pid: u32) -> bool {
    s.pending.contains_key(pid) && now - s.pending[pid].issued_at > s.pending[pid].timeout
}

/// Whether a request for this image, be it for its base or for a frame, has
/// expired.
pub open spec fn expires(s: StoreView, now: u64, id: u32) -> bool {
    exists|pid: u32| #[trigger] expired(s, now, pid) && s.pending[pid].image_id == id
}

/// The store after expired requests were dropped, each with its image and the
/// image's bytes.
pub open spec fn after_expiry(s: StoreView, now: u64) -> StoreView {
    let images = s.images.restrict(Set::new(|id: u32| !expires(s, now, id)));
    StoreView {
        pending: s.pending.restrict(Set::new(|pid: u32| !expired(s, now, pid))),
        images,
        total_bytes: image_bytes(images) as usize,
        ..s
    }
}

/// The report on one expired request.
pub open spec fn expiry_report(s: StoreView, now: u64, pid: u32) -> Outcome {
    (
        PendingId(pid),
        Err(
            DecodeError::TimedOut {
                elapsed_ms: ((now - s.pending[pid].issued_at) / 1_000_000) as u64,
            },
        ),
    )
}

/// Whether `out` reports each expired request once, in any order.
pub open spec fn reports_expiry(s: StoreView, now: u64, out: Seq<Outcome>) -> bool {
    &&& forall|i: int|
        0 <= i < out.len() ==> expired(s, now, (#[trigger] out[i]).0.0) && out[i] == expiry_report(
            s,
            now,
            out[i].0.0,
        )
    &&& forall|i: int, j: int|
        0 <= i < j < out.len() ==> (#[trigger] out[i]).0 != (#[trigger] out[j]).0
    &&& forall|pid: u32| #[trigger]
        expired(s, now, pid) ==> exists|i: int| 0 <= i < out.len() && (#[trigger] out[i]).0.0 == pid
}

/// Bytes charged for an image of this size: the texture, and as much again
/// where the pixels are kept as well.
pub open spec fn charge(width: u32, height: u32, mirrored: bool) -> int {
    width * height * 4 * if mirrored {
        2int
    } else {
        1int
    }
}

/// The refusal of an image that does not fit the cap any more.
pub open spec fn budget_error(s: StoreView, needed: int) -> DecodeError {
    DecodeError::BudgetExceeded {
        needed: if needed > usize::MAX {
            usize::MAX
        } else {
            needed as usize
        },
        available: if s.total_bytes > s.cap_bytes {
            0
        } else {
            (s.cap_bytes - s.total_bytes) as usize
        },
    }
}

/// What an event leaves behind: the store, the outcome to report, and the
/// texture to upload.
pub struct Effect {
    pub store: StoreView,
    pub outcome: Option<Outcome>,
    pub upload: Option<UploadView>,
}

/// The base of image `id` has been decoded.
pub open spec fn base_decoded(
    s: StoreView,
    pid: u32,
    id: u32,
    pixels: PixelsView,
    keep_rgba: bool,
    label: Option<Seq<char>>,
    nearest_filter: bool,
    now: u64,
) -> Effect {
    let needed = charge(pixels.width, pixels.height, keep_rgba);
    if s.total_bytes + needed > s.cap_bytes {
        Effect {
            store: StoreView { images: s.images.remove(id), ..s },
            outcome: Some((PendingId(pid), Err(budget_error(s, needed)))),
            upload: None,
        }
    } else {
        let image = GpuImage {
            width_px: pixels.width,
            height_px: pixels.height,
            texture: TextureKey { image: id, slot: FrameSlot::Base },
        };
        let entry = StoredView {
            image: Some(image),
            preview: preview::preview_of(
                pixels.rgba,
                pixels.width as int,
                pixels.height as int,
            ),
            bytes: needed as usize,
            last_used: now,
            base_dims: Some((pixels.width, pixels.height)),
            base_rgba: if keep_rgba {
                Some(pixels.rgba)
            } else {
                s.images[id].base_rgba
            },
            ..s.images[id]
        };
        Effect {
            store: StoreView {
                images: s.images.insert(id, entry),
                total_bytes: (s.total_bytes + needed) as usize,
                ..s
            },
            outcome: Some((PendingId(pid), Ok(ImageId(id)))),
            upload: Some(UploadView { image, rgba: pixels.rgba, nearest_filter, label }),
        }
    }
}

/// The pixels that a frame is composed onto. A frame number that does not
/// exist stands for the base, and a base that was not kept is blank.
pub open spec fn compose_source(
    parent: StoredView,
    compose_base: Option<u32>,
    blank: nat,
) -> Seq<u8> {
    let base = match parent.base_rgba {
        Some(rgba) => rgba,
        None => Seq::new(blank, |i: int| 0u8),
    };
    let chosen: int = match compose_base {
        Some(n) => n as int,
        None => parent.frames.len() as int,
    };
    if 1 <= chosen <= parent.frames.len() {
        parent.frames[chosen - 1].rgba
    } else {
        base
    }
}

/// The pixels of a new frame. A payload that covers the whole image and names
/// no compose base is the frame itself; any other is composed.
pub open spec fn frame_pixels(
    parent: StoredView,
    dims: (u32, u32),
    pixels: PixelsView,
    dst_x: u32,
    dst_y: u32,
    compose_base: Option<u32>,
) -> Seq<u8> {
    let (w, h) = dims;
    if compose_base is None && dst_x == 0 && dst_y == 0 && pixels.width == w && pixels.height
        == h {
        pixels.rgba
    } else {
        composed(
            compose_source(parent, compose_base, (w * h * 4) as nat),
            w as int,
            h as int,
            pixels.rgba,
            pixels.width as int,
            pixels.height as int,
            dst_x as int,
            dst_y as int,
        )
    }
}

/// Where a frame goes: the frame that it replaces, or one past the last.
pub open spec fn frame_place(frames: Seq<FrameView>, target_slot: Option<u32>) -> int {
    match target_slot {
        Some(n) => if n >= 2 && n - 2 < frames.len() {
            n - 2
        } else {
            frames.len() as int
        },
        None => frames.len() as int,
    }
}

/// `a - b`, and zero below.
pub open spec fn less(a: int, b: int) -> int {
    if a < b {
        0
    } else {
        a - b
    }
}

/// A frame of image `id` has been decoded.
pub open spec fn frame_decoded(
    s: StoreView,
    pid: u32,
    id: u32,
    pixels: PixelsView,
    dst_x: u32,
    dst_y: u32,
    compose_base: Option<u32>,
    delay_ms: u32,
    target_slot: Option<u32>,
    label: Option<Seq<char>>,
    nearest_filter: bool,
    now: u64,
) -> Effect {
    let failed = |e: DecodeError|
        Effect { store: s, outcome: Some((PendingId(pid), Err(e))), upload: None };
    if !s.images.contains_key(id) || s.images[id].base_dims is None {
        failed(DecodeError::ParentNotReady)
    } else {
        let parent = s.images[id];
        let (w, h) = parent.base_dims->0;
        let needed = charge(w, h, true);
        if s.total_bytes + needed > s.cap_bytes {
            failed(budget_error(s, needed))
        } else {
            let place = frame_place(parent.frames, target_slot);
            let image = GpuImage {
                width_px: w,
                height_px: h,
                texture: TextureKey { image: id, slot: FrameSlot::Frame(place as usize) },
            };
            let rgba = frame_pixels(parent, (w, h), pixels, dst_x, dst_y, compose_base);
            let frame = FrameView { image, rgba, delay_ms, bytes: needed as usize };
            let replaced: int = if place < parent.frames.len() {
                parent.frames[place].bytes as int
            } else {
                0
            };
            let entry = StoredView {
                frames: if place < parent.frames.len() {
                    parent.frames.update(place, frame)
                } else {
                    parent.frames.push(frame)
                },
                bytes: less(parent.bytes + needed, replaced) as usize,
                last_used: now,
                ..parent
            };
            Effect {
                store: StoreView {
                    images: s.images.insert(id, entry),
                    total_bytes: less(s.total_bytes + needed, replaced) as usize,
                    ..s
                },
                outcome: Some((PendingId(pid), Ok(ImageId(id)))),
                upload: Some(UploadView { image, rgba, nearest_filter, label }),
            }
        }
    }
}

/// The store without one pending request.
pub open spec fn without_pending(s: StoreView, pid: u32) -> StoreView {
    StoreView { pending: s.pending.remove(pid), ..s }
}

/// A decode result arrives. One that no request waits for is dropped. A
/// failure evicts the image whose base it was to fill, and leaves an image
/// alone whose frame it was.
pub open spec fn delivered(
    s: StoreView,
    result: ResultView,
    nearest_filter: bool,
    now: u64,
) -> Effect {
    let pid = result.pending_id;
    if !s.pending.contains_key(pid) {
        Effect { store: s, outcome: None, upload: None }
    } else {
        let request = s.pending[pid];
        let rest = without_pending(s, pid);
        match result.outcome {
            Err(e) => Effect {
                store: if request.kind is Base {
                    StoreView { images: rest.images.remove(request.image_id), ..rest }
                } else {
                    rest
                },
                outcome: Some((PendingId(pid), Err(e))),
                upload: None,
            },
            Ok(pixels) => match request.kind {
                PendingKind::Base { keep_rgba } => base_decoded(
                    rest,
                    pid,
                    request.image_id,
                    pixels,
                    keep_rgba,
                    result.label,
                    nearest_filter,
                    now,
                ),
                PendingKind::Frame { dst_x, dst_y, compose_base, delay_ms, target_slot } =>
                frame_decoded(
                    rest,
                    pid,
                    request.image_id,
                    pixels,
                    dst_x,
                    dst_y,
                    compose_base,
                    delay_ms,
                    target_slot,
                    result.label,
                    nearest_filter,
                    now,
                ),
            },
        }
    }
}

/// Whether the store can take a result: a decoded base needs the reservation
/// that it fills, unless the cap refuses it.
pub open spec fn deliverable(s: StoreView, result: ResultView) -> bool {
    s.pending.contains_key(result.pending_id) ==> {
        let request = s.pending[result.pending_id];
        match (result.outcome, request.kind) {
            (Ok(pixels), PendingKind::Base { keep_rgba }) => s.images.contains_key(request.image_id)
                || s.total_bytes + charge(pixels.width, pixels.height, keep_rgba) > s.cap_bytes,
            _ => true,
        }
    }
}

/// Whether every image whose base is still to come is reserved.
pub open spec fn reserved(s: StoreView) -> bool {
    forall|pid: u32| #[trigger]
        s.pending.contains_key(pid) && s.pending[pid].kind is Base ==> s.images.contains_key(
            s.pending[pid].image_id,
        )
}

/// An optional item as a sequence.
pub open spec fn at_most_one<T>(item: Option<T>) -> Seq<T> {
    match item {
        Some(x) => seq![x],
        None => Seq::empty(),
    }
}

/// What a run of results leaves behind.
pub struct Batch {
    pub store: StoreView,
    pub outcomes: Seq<Outcome>,
    pub uploads: Seq<UploadView>,
}

/// The results arrive one after the other.
pub open spec fn delivered_all(
    s: StoreView,
    results: Seq<ResultView>,
    nearest_filter: bool,
    now: u64,
) -> Batch
    decreases results.len(),
{
    if results.len() == 0 {
        Batch { store: s, outcomes: Seq::empty(), uploads: Seq::empty() }
    } else {
        let before = delivered_all(s, results.drop_last(), nearest_filter, now);
        let effect = delivered(before.store, results.last(), nearest_filter, now);
        Batch {
            store: effect.store,
            outcomes: before.outcomes + at_most_one(effect.outcome),
            uploads: before.uploads + at_most_one(effect.upload),
        }
    }
}

/// Whether the store can take each of the results when its turn comes.
pub open spec fn all_deliverable(
    s: StoreView,
    results: Seq<ResultView>,
    nearest_filter: bool,
    now: u64,
) -> bool {
    forall|i: int|
        0 <= i < results.len() ==> #[trigger] deliverable(
            delivered_all(s, results.take(i), nearest_filter, now).store,
            results[i],
        )
}

/// The store after images outside `keep` were dropped.
pub open spec fn retained(s: StoreView, keep: Set<u32>) -> StoreView {
    let images = s.images.restrict(keep);
    StoreView { images, total_bytes: image_bytes(images) as usize, ..s }
}

} // verus!
