//! The store of decoded images.
//!
//! Decoding happens elsewhere: the store hands out [`DecodeJob`]s and takes
//! [`DecodeResult`]s back in [`Store::poll`], which also says which textures to
//! upload. Images are dropped by mark and sweep: [`Store::retain`] keeps the
//! ones that are still shown.

use crate::images::accounting;
use crate::images::compose::composite_rgba;
use crate::images::decode;
use crate::images::decode::{decode_to_rgba, DecodeError};
use crate::images::entry;
use crate::images::entry::{
    resolve_current_frame, AnimationState, Frame, FrameSlot, GpuImage, StoredImage, StoredView,
    TextureKey,
};
use crate::images::model;
use crate::images::model::{
    DecodeJob, DecodeResult, DecodedPixels, ImageId, JobView, Outcome, PendingId, PendingKind,
    PendingRequest, ResultView, StoreView, Upload, UploadView,
};
use crate::images::preview::{build_preview, Preview};
use std::collections::{HashMap, HashSet};
use vstd::prelude::*;

verus! {

broadcast use vstd::std_specs::hash::group_hash_axioms;

/// Default cap on the bytes of all images, 256 MiB.
pub const DEFAULT_CAP_BYTES: usize = 268_435_456;

/// How long a payload that needs no decoding may wait, in nanoseconds.
pub const IMMEDIATE_TIMEOUT: u64 = 60_000_000_000;

/// The images of a terminal, those whose decode is in flight included.
#[derive(Debug)]
pub struct Store {
    pub next_id: u32,
    pub images: HashMap<u32, StoredImage>,
    pub total_bytes: usize,
    pub cap_bytes: usize,
    pub next_pending: u32,
    pub pending: HashMap<u32, PendingRequest>,
    /// Payloads that the decode worker has not been given yet.
    pub jobs: Vec<DecodeJob>,
    /// Payloads that need no decoding, until the next poll.
    pub immediate_results: Vec<DecodeResult>,
}

/// What a poll found out: the finished requests and the textures to upload.
#[derive(Debug)]
pub struct Polled {
    pub outcomes: Vec<Outcome>,
    pub uploads: Vec<Upload>,
}

/// The contents of the stored images.
pub open spec fn image_views(images: Map<u32, StoredImage>) -> Map<u32, StoredView> {
    images.map_values(|e: StoredImage| e@)
}

/// The contents of a run of jobs.
pub open spec fn job_views(jobs: Seq<DecodeJob>) -> Seq<JobView> {
    Seq::new(jobs.len(), |i: int| jobs[i]@)
}

/// The contents of a run of results.
pub open spec fn result_views(results: Seq<DecodeResult>) -> Seq<ResultView> {
    Seq::new(results.len(), |i: int| results[i]@)
}

/// The contents of a run of uploads.
pub open spec fn upload_views(uploads: Seq<Upload>) -> Seq<UploadView> {
    Seq::new(uploads.len(), |i: int| uploads[i]@)
}

impl View for Store {
    type V = StoreView;

    open spec fn view(&self) -> StoreView {
        StoreView {
            next_id: self.next_id,
            images: image_views(self.images@),
            total_bytes: self.total_bytes,
            cap_bytes: self.cap_bytes,
            next_pending: self.next_pending,
            pending: self.pending@,
            jobs: job_views(self.jobs@),
            immediate_results: result_views(self.immediate_results@),
        }
    }
}

/// The id after `id`.
fn next_after(id: u32) -> (next: u32)
    ensures
        next == model::id_after(id),
{
    if id == u32::MAX {
        1
    } else {
        id + 1
    }
}

/// The keys of a map, each once and in no particular order.
pub(crate) fn keys_of<V>(map: &HashMap<u32, V>) -> (keys: Vec<u32>)
    ensures
        keys@.no_duplicates(),
        forall|k: u32| #[trigger] map@.contains_key(k) <==> keys@.contains(k),
{
    let mut keys: Vec<u32> = Vec::new();
    for key in it: map.keys()
        invariant
            it.seq().unref().to_set() == map@.dom(),
            it.seq().no_duplicates(),
            keys@ == it.seq().unref().take(it.index() as int),
            it.index() == it.seq().len() ==> keys@.to_set() == map@.dom(),
    {
        keys.push(*key);
        assert(keys@ =~= it.seq().unref().take(it.index() as int + 1));
        assert(it.index() + 1 == it.seq().len() ==> keys@ =~= it.seq().unref());
    }
    assert forall|k: u32| #[trigger] map@.contains_key(k) <==> keys@.contains(k) by {
        assert(keys@.to_set().contains(k) <==> keys@.contains(k));
    }
    keys
}

/// A copy of a run of bytes.
fn copy_bytes(bytes: &Vec<u8>) -> (copy: Vec<u8>)
    ensures
        copy@ == bytes@,
{
    let copy = bytes.clone();
    assert(copy@ =~= bytes@);
    copy
}

impl Store {
    /// The store's invariant.
    pub open spec fn wf(&self) -> bool {
        model::store_wf(self@)
    }

    /// An empty store with room for `cap_bytes` bytes.
    pub fn new(cap_bytes: usize) -> (store: Self)
        ensures
            store.wf(),
            store@ == (StoreView {
                next_id: 1,
                images: Map::empty(),
                total_bytes: 0,
                cap_bytes,
                next_pending: 1,
                pending: Map::empty(),
                jobs: Seq::empty(),
                immediate_results: Seq::empty(),
            }),
    {
        let store = Store {
            next_id: 1,
            images: HashMap::new(),
            total_bytes: 0,
            cap_bytes,
            next_pending: 1,
            pending: HashMap::new(),
            jobs: Vec::new(),
            immediate_results: Vec::new(),
        };
        proof {
            accounting::bytes_of_nothing(store@.images, model::id_end());
            assert(store@.images =~= Map::<u32, StoredView>::empty());
        }
        store
    }

    /// Whether a new image can be reserved: no request in flight is to fill an
    /// image under the next id. Ids repeat only after all of them were used.
    pub fn can_reserve(&self) -> (b: bool)
        ensures
            b == !model::awaited(self@, self.next_id),
    {
        let ids: Vec<u32> = keys_of(&self.pending);
        let mut i: usize = 0;
        while i < ids.len()
            invariant
                i <= ids@.len(),
                forall|k: u32| #[trigger] self.pending@.contains_key(k) <==> ids@.contains(k),
                forall|j: int|
                    0 <= j < i ==> {
                        let r = self.pending@[#[trigger] ids@[j]];
                        !(r.kind is Base && r.image_id == self.next_id)
                    },
            decreases ids@.len() - i,
        {
            let pid: u32 = ids[i];
            assert(ids@.contains(pid));
            if let Some(request) = self.pending.get(&pid) {
                let base = match request.kind {
                    PendingKind::Base { .. } => true,
                    PendingKind::Frame { .. } => false,
                };
                if base && request.image_id == self.next_id {
                    assert(self@.pending.contains_key(pid));
                    return false;
                }
            }
            i = i + 1;
        }
        proof {
            if model::awaited(self@, self.next_id) {
                let pid = choose|pid: u32| #[trigger]
                    self@.pending.contains_key(pid) && self@.pending[pid].kind is Base
                        && self@.pending[pid].image_id == self.next_id;
                assert(self.pending@.contains_key(pid));
                assert(ids@.contains(pid));
                let j = choose|j: int| 0 <= j < ids@.len() && ids@[j] == pid;
                assert(ids@[j] == pid);
            }
        }
        true
    }

    /// Reserves an image and enters the request that is to fill it.
    fn reserve(&mut self, kind: PendingKind, timeout: u64, now: u64) -> (ids: (PendingId, ImageId))
        requires
            old(self).wf(),
            !model::awaited(old(self)@, old(self).next_id),
            kind is Base,
        ensures
            final(self).wf(),
            ids == (PendingId(old(self).next_pending), ImageId(old(self).next_id)),
            final(self)@ == model::with_pending(
                model::with_reservation(old(self)@, now),
                PendingRequest { image_id: old(self).next_id, kind, issued_at: now, timeout },
            ),
    {
        let ghost before = self@;
        let image_id: u32 = self.next_id;
        self.next_id = next_after(image_id);
        if let Some(replaced) = self.images.get(&image_id) {
            proof {
                accounting::bytes_of_one(before.images, image_id, model::id_end());
                assert(before.images[image_id] == replaced@);
            }
            self.total_bytes = self.total_bytes - replaced.bytes;
        }
        self.images.insert(image_id, StoredImage::reserved(now));
        let pending_id: u32 = self.next_pending;
        self.next_pending = next_after(pending_id);
        self.pending.insert(pending_id, PendingRequest { image_id, kind, issued_at: now, timeout });
        proof {
            let request = PendingRequest { image_id, kind, issued_at: now, timeout };
            assert(self@ =~= model::with_pending(
                model::with_reservation(before, now),
                request,
            ));
            accounting::reserving_keeps_wf(before, now, kind, timeout);
        }
        (PendingId(pending_id), ImageId(image_id))
    }

    /// Queues a payload for the decode worker.
    fn queue(&mut self, pending_id: u32, bytes: Vec<u8>, max_pixels: u64, label: Option<String>)
        requires
            old(self).wf(),
        ensures
            final(self).wf(),
            final(self)@ == (StoreView {
                jobs: old(self)@.jobs.push(
                    JobView {
                        pending_id,
                        bytes: bytes@,
                        max_pixels,
                        label: model::label_view(label),
                    },
                ),
                ..old(self)@
            }),
    {
        let ghost before = self@;
        self.jobs.push(DecodeJob { pending_id, bytes, max_pixels, label });
        proof {
            assert(self@.jobs =~= before.jobs.push(
                JobView { pending_id, bytes: bytes@, max_pixels, label: model::label_view(label) },
            ));
            accounting::dropping_keeps_wf(before, self@);
        }
    }

    /// Sets pixels aside that need no decoding, for the next poll.
    fn set_aside(&mut self, pending_id: u32, pixels: DecodedPixels, label: Option<String>)
        requires
            old(self).wf(),
        ensures
            final(self).wf(),
            final(self)@ == (StoreView {
                immediate_results: old(self)@.immediate_results.push(
                    ResultView {
                        pending_id,
                        label: model::label_view(label),
                        outcome: Ok(pixels@),
                    },
                ),
                ..old(self)@
            }),
    {
        let ghost before = self@;
        self.immediate_results.push(DecodeResult { pending_id, label, outcome: Ok(pixels) });
        proof {
            assert(self@.immediate_results =~= before.immediate_results.push(
                ResultView { pending_id, label: model::label_view(label), outcome: Ok(pixels@) },
            ));
            accounting::dropping_keeps_wf(before, self@);
        }
    }

    /// Queues a payload for decoding and reserves its image. The id can be
    /// placed at once; the image stays blank until its pixels arrive.
    pub fn request_insert(
        &mut self,
        bytes: Vec<u8>,
        max_pixels: u64,
        timeout: u64,
        label: Option<String>,
        now: u64,
    ) -> (ids: (PendingId, ImageId))
        requires
            old(self).wf(),
            !model::awaited(old(self)@, old(self).next_id),
        ensures
            final(self).wf(),
            ids == (PendingId(old(self).next_pending), ImageId(old(self).next_id)),
            final(self)@ == insert_requested(
                old(self)@,
                bytes@,
                max_pixels,
                timeout,
                model::label_view(label),
                false,
                now,
            ),
    {
        let ids: (PendingId, ImageId) = self.reserve(
            PendingKind::Base { keep_rgba: false },
            timeout,
            now,
        );
        self.queue(ids.0.0, bytes, max_pixels, label);
        ids
    }

    /// Like [`Store::request_insert`], for an image that may receive frames:
    /// its pixels are kept beside its texture.
    pub fn request_insert_animatable(
        &mut self,
        bytes: Vec<u8>,
        max_pixels: u64,
        timeout: u64,
        label: Option<String>,
        now: u64,
    ) -> (ids: (PendingId, ImageId))
        requires
            old(self).wf(),
            !model::awaited(old(self)@, old(self).next_id),
        ensures
            final(self).wf(),
            ids == (PendingId(old(self).next_pending), ImageId(old(self).next_id)),
            final(self)@ == insert_requested(
                old(self)@,
                bytes@,
                max_pixels,
                timeout,
                model::label_view(label),
                true,
                now,
            ),
    {
        let ids: (PendingId, ImageId) = self.reserve(
            PendingKind::Base { keep_rgba: true },
            timeout,
            now,
        );
        self.queue(ids.0.0, bytes, max_pixels, label);
        ids
    }

    /// Like [`Store::request_insert_animatable`], for pixels that need no
    /// decoding. The next poll takes them in.
    pub fn request_insert_animatable_rgba(
        &mut self,
        rgba: Vec<u8>,
        width: u32,
        height: u32,
        label: Option<String>,
        now: u64,
    ) -> (ids: (PendingId, ImageId))
        requires
            old(self).wf(),
            !model::awaited(old(self)@, old(self).next_id),
        ensures
            final(self).wf(),
            ids == (PendingId(old(self).next_pending), ImageId(old(self).next_id)),
            final(self)@ == ({
                let s = model::with_pending(
                    model::with_reservation(old(self)@, now),
                    PendingRequest {
                        image_id: old(self).next_id,
                        kind: PendingKind::Base { keep_rgba: true },
                        issued_at: now,
                        timeout: IMMEDIATE_TIMEOUT,
                    },
                );
                with_immediate(
                    s,
                    old(self).next_pending,
                    rgba@,
                    width,
                    height,
                    model::label_view(label),
                )
            }),
    {
        let ids: (PendingId, ImageId) = self.reserve(
            PendingKind::Base { keep_rgba: true },
            IMMEDIATE_TIMEOUT,
            now,
        );
        self.set_aside(ids.0.0, DecodedPixels { rgba, width, height }, label);
        ids
    }

    /// Enters a request for a frame of an image that exists.
    fn enter_frame(
        &mut self,
        parent: ImageId,
        timeout: u64,
        target_slot: Option<u32>,
        compose_base: Option<u32>,
        delay_ms: u32,
        dst_x: u32,
        dst_y: u32,
        now: u64,
    ) -> (id: Option<PendingId>)
        requires
            old(self).wf(),
        ensures
            final(self).wf(),
            match id {
                Some(pid) => old(self)@.images.contains_key(parent.0) && pid == PendingId(
                    old(self).next_pending,
                ) && final(self)@ == model::with_pending(
                    old(self)@,
                    frame_request(
                        parent,
                        timeout,
                        target_slot,
                        compose_base,
                        delay_ms,
                        dst_x,
                        dst_y,
                        now,
                    ),
                ),
                None => !old(self)@.images.contains_key(parent.0) && final(self)@ == old(self)@,
            },
    {
        if !self.images.contains_key(&parent.0) {
            return None;
        }
        let ghost before = self@;
        let compose_base: Option<u32> = match compose_base {
            Some(n) => if n <= 1 {
                Some(0)
            } else {
                Some(n - 1)
            },
            None => None,
        };
        let pending_id: u32 = self.next_pending;
        self.next_pending = next_after(pending_id);
        let request = PendingRequest {
            image_id: parent.0,
            kind: PendingKind::Frame { dst_x, dst_y, compose_base, delay_ms, target_slot },
            issued_at: now,
            timeout,
        };
        self.pending.insert(pending_id, request);
        proof {
            assert(self@ =~= model::with_pending(before, request));
            accounting::frame_request_keeps_wf(before, request);
        }
        Some(PendingId(pending_id))
    }

    /// Queues a payload for decoding that is to become a frame of `parent`.
    /// `None` if that image does not exist; the payload is then dropped.
    pub fn request_insert_frame(
        &mut self,
        parent: ImageId,
        bytes: Vec<u8>,
        max_pixels: u64,
        timeout: u64,
        label: Option<String>,
        target_slot: Option<u32>,
        compose_base: Option<u32>,
        delay_ms: u32,
        dst_x: u32,
        dst_y: u32,
        now: u64,
    ) -> (id: Option<PendingId>)
        requires
            old(self).wf(),
        ensures
            final(self).wf(),
            match id {
                Some(pid) => old(self)@.images.contains_key(parent.0) && pid == PendingId(
                    old(self).next_pending,
                ) && final(self)@ == ({
                    let s = model::with_pending(
                        old(self)@,
                        frame_request(
                            parent,
                            timeout,
                            target_slot,
                            compose_base,
                            delay_ms,
                            dst_x,
                            dst_y,
                            now,
                        ),
                    );
                    with_job(s, old(self).next_pending, bytes@, max_pixels, model::label_view(label))
                }),
                None => !old(self)@.images.contains_key(parent.0) && final(self)@ == old(self)@,
            },
    {
        match self.enter_frame(
            parent,
            timeout,
            target_slot,
            compose_base,
            delay_ms,
            dst_x,
            dst_y,
            now,
        ) {
            Some(pid) => {
                self.queue(pid.0, bytes, max_pixels, label);
                Some(pid)
            },
            None => None,
        }
    }

    /// Like [`Store::request_insert_frame`], for pixels that need no decoding.
    pub fn request_insert_frame_rgba(
        &mut self,
        parent: ImageId,
        rgba: Vec<u8>,
        width: u32,
        height: u32,
        label: Option<String>,
        target_slot: Option<u32>,
        compose_base: Option<u32>,
        delay_ms: u32,
        dst_x: u32,
        dst_y: u32,
        now: u64,
    ) -> (id: Option<PendingId>)
        requires
            old(self).wf(),
        ensures
            final(self).wf(),
            match id {
                Some(pid) => old(self)@.images.contains_key(parent.0) && pid == PendingId(
                    old(self).next_pending,
                ) && final(self)@ == ({
                    let s = model::with_pending(
                        old(self)@,
                        frame_request(
                            parent,
                            IMMEDIATE_TIMEOUT,
                            target_slot,
                            compose_base,
                            delay_ms,
                            dst_x,
                            dst_y,
                            now,
                        ),
                    );
                    with_immediate(
                        s,
                        old(self).next_pending,
                        rgba@,
                        width,
                        height,
                        model::label_view(label),
                    )
                }),
                None => !old(self)@.images.contains_key(parent.0) && final(self)@ == old(self)@,
            },
    {
        match self.enter_frame(
            parent,
            IMMEDIATE_TIMEOUT,
            target_slot,
            compose_base,
            delay_ms,
            dst_x,
            dst_y,
            now,
        ) {
            Some(pid) => {
                self.set_aside(pid.0, DecodedPixels { rgba, width, height }, label);
                Some(pid)
            },
            None => None,
        }
    }

    /// Hands out the payloads that wait for the decode worker.
    pub fn take_jobs(&mut self) -> (jobs: Vec<DecodeJob>)
        requires
            old(self).wf(),
        ensures
            final(self).wf(),
            job_views(jobs@) == old(self)@.jobs,
            final(self)@ == (StoreView { jobs: Seq::empty(), ..old(self)@ }),
    {
        let ghost before = self@;
        let mut jobs: Vec<DecodeJob> = Vec::new();
        std::mem::swap(&mut jobs, &mut self.jobs);
        proof {
            assert(self@.jobs =~= Seq::<JobView>::empty());
            accounting::dropping_keeps_wf(before, self@);
        }
        jobs
    }
}

/// The store with one more payload for the decode worker.
pub open spec fn with_job(
    s: StoreView,
    pending_id: u32,
    bytes: Seq<u8>,
    max_pixels: u64,
    label: Option<Seq<char>>,
) -> StoreView {
    StoreView { jobs: s.jobs.push(JobView { pending_id, bytes, max_pixels, label }), ..s }
}

/// The store with pixels set aside for the next poll.
pub open spec fn with_immediate(
    s: StoreView,
    pending_id: u32,
    rgba: Seq<u8>,
    width: u32,
    height: u32,
    label: Option<Seq<char>>,
) -> StoreView {
    StoreView {
        immediate_results: s.immediate_results.push(
            ResultView {
                pending_id,
                label,
                outcome: Ok(model::PixelsView { rgba, width, height }),
            },
        ),
        ..s
    }
}

/// The store after a payload for a new image was queued.
pub open spec fn insert_requested(
    s: StoreView,
    bytes: Seq<u8>,
    max_pixels: u64,
    timeout: u64,
    label: Option<Seq<char>>,
    keep_rgba: bool,
    now: u64,
) -> StoreView {
    let t = model::with_pending(
        model::with_reservation(s, now),
        PendingRequest {
            image_id: s.next_id,
            kind: PendingKind::Base { keep_rgba },
            issued_at: now,
            timeout,
        },
    );
    with_job(t, s.next_pending, bytes, max_pixels, label)
}

/// The request for a frame.
pub open spec fn frame_request(
    parent: ImageId,
    timeout: u64,
    target_slot: Option<u32>,
    compose_base: Option<u32>,
    delay_ms: u32,
    dst_x: u32,
    dst_y: u32,
    now: u64,
) -> PendingRequest {
    PendingRequest {
        image_id: parent.0,
        kind: PendingKind::Frame {
            dst_x,
            dst_y,
            compose_base: model::compose_index(compose_base),
            delay_ms,
            target_slot,
        },
        issued_at: now,
        timeout,
    }
}

impl Store {
    /// Drops the requests that waited longer than their timeout, each with its
    /// image, and reports them.
    fn expire(&mut self, now: u64) -> (out: Vec<Outcome>)
        requires
            old(self).wf(),
        ensures
            final(self).wf(),
            final(self)@ == model::after_expiry(old(self)@, now),
            model::reports_expiry(old(self)@, now, out@),
    {
        let ghost s = self@;
        let ids: Vec<u32> = keys_of(&self.pending);
        let mut out: Vec<Outcome> = Vec::new();
        let mut i: usize = 0;
        while i < ids.len()
            invariant
                i <= ids@.len(),
                ids@.no_duplicates(),
                forall|k: u32| #[trigger] s.pending.contains_key(k) <==> ids@.contains(k),
                self@.next_id == s.next_id,
                self@.next_pending == s.next_pending,
                self@.total_bytes == model::image_bytes(self@.images),
                self@.cap_bytes == s.cap_bytes,
                self@.jobs == s.jobs,
                self@.immediate_results == s.immediate_results,
                self@.pending == s.pending.remove_keys(expired_among(s, now, ids@.take(i as int))),
                self@.images == s.images.remove_keys(
                    images_of_expired(s, now, ids@.take(i as int)),
                ),
                forall|j: int|
                    0 <= j < out@.len() ==> model::expired(s, now, (#[trigger] out@[j]).0.0)
                        && out@[j] == model::expiry_report(s, now, out@[j].0.0) && ids@.take(
                        i as int,
                    ).contains(out@[j].0.0),
                forall|j: int, k: int|
                    0 <= j < k < out@.len() ==> (#[trigger] out@[j]).0 != (#[trigger] out@[k]).0,
                forall|p: int|
                    0 <= p < i && model::expired(s, now, #[trigger] ids@[p]) ==> exists|j: int|
                        0 <= j < out@.len() && (#[trigger] out@[j]).0.0 == ids@[p],
            decreases ids@.len() - i,
        {
            let pid: u32 = ids[i];
            let ghost done = ids@.take(i as int);
            let ghost next = ids@.take(i as int + 1);
            let ghost before = self@;
            let ghost reported = out@;
            proof {
                assert(ids@.contains(pid));
                assert(!done.contains(pid)) by {
                    if done.contains(pid) {
                        let j = choose|j: int| 0 <= j < done.len() && done[j] == pid;
                        assert(ids@[j] == ids@[i as int]);
                    }
                }
                assert(next =~= done.push(pid));
                assert forall|k: u32| next.contains(k) <==> done.contains(k) || k == pid by {
                    if next.contains(k) {
                        let j = choose|j: int| 0 <= j < next.len() && next[j] == k;
                        if j < done.len() {
                            assert(done[j] == k);
                        }
                    }
                    if done.contains(k) {
                        let j = choose|j: int| 0 <= j < done.len() && done[j] == k;
                        assert(next[j] == k);
                    }
                    assert(next[i as int] == pid);
                }
                assert(self@.pending.contains_key(pid));
            }
            let request: PendingRequest = *self.pending.get(&pid).unwrap();
            let waited: u64 = if now > request.issued_at {
                now - request.issued_at
            } else {
                0
            };
            if waited > request.timeout {
                assert(model::expired(s, now, pid));
                self.pending.remove(&pid);
                proof {
                    accounting::bytes_of_one(before.images, request.image_id, model::id_end());
                }
                if let Some(entry) = self.images.remove(&request.image_id) {
                    assert(entry@ == before.images[request.image_id]);
                    self.total_bytes = self.total_bytes - entry.bytes;
                }
                out.push(
                    (PendingId(pid), Err(DecodeError::TimedOut { elapsed_ms: waited / 1_000_000 })),
                );
                proof {
                    assert(self@.pending =~= s.pending.remove_keys(expired_among(s, now, next)));
                    assert(self@.images =~= before.images.remove(request.image_id));
                    accounting::bytes_after_change(
                        before.images,
                        self@.images,
                        request.image_id,
                        model::id_end(),
                    );
                    let dropped = images_of_expired(s, now, done);
                    assert forall|id: u32| #[trigger]
                        images_of_expired(s, now, next).contains(id) <==> dropped.contains(id) || id
                        == request.image_id by {
                        if dropped.contains(id) {
                            let p = choose|p: u32| #[trigger]
                                expired_among(s, now, done).contains(p) && s.pending[p].image_id
                                    == id;
                            assert(expired_among(s, now, next).contains(p));
                        }
                        if images_of_expired(s, now, next).contains(id) {
                            let p = choose|p: u32| #[trigger]
                                expired_among(s, now, next).contains(p) && s.pending[p].image_id
                                    == id;
                            if p != pid {
                                assert(expired_among(s, now, done).contains(p));
                            }
                        }
                        assert(expired_among(s, now, next).contains(pid));
                    }
                    assert(self@.images =~= s.images.remove_keys(images_of_expired(s, now, next)));
                    assert(out@[out@.len() - 1] == model::expiry_report(s, now, pid));
                    assert forall|p: int|
                        0 <= p < i + 1 && model::expired(
                            s,
                            now,
                            #[trigger] ids@[p],
                        ) implies exists|j: int|
                        0 <= j < out@.len() && (#[trigger] out@[j]).0.0 == ids@[p] by {
                        if p < i {
                            let j = choose|j: int|
                                0 <= j < reported.len() && (#[trigger] reported[j]).0.0 == ids@[p];
                            assert(out@[j] == reported[j]);
                        } else {
                            assert(out@[out@.len() - 1].0.0 == ids@[p]);
                        }
                    }
                }
            } else {
                proof {
                    assert(!model::expired(s, now, pid));
                    assert(expired_among(s, now, next) =~= expired_among(s, now, done));
                    assert(self@.pending =~= s.pending.remove_keys(expired_among(s, now, next)));
                    assert(self@.images =~= s.images.remove_keys(images_of_expired(s, now, next)));
                }
            }
            i = i + 1;
        }
        proof {
            assert(ids@.take(ids@.len() as int) =~= ids@);
            let t = model::after_expiry(s, now);
            assert(self@.pending =~= t.pending);
            assert forall|id: u32| #[trigger]
                images_of_expired(s, now, ids@).contains(id) <==> model::expires(s, now, id) by {
                if model::expires(s, now, id) {
                    let pid = choose|pid: u32| #[trigger]
                        model::expired(s, now, pid) && s.pending[pid].image_id == id;
                    assert(s.pending.contains_key(pid));
                    assert(expired_among(s, now, ids@).contains(pid));
                }
                if images_of_expired(s, now, ids@).contains(id) {
                    let pid = choose|pid: u32| #[trigger]
                        expired_among(s, now, ids@).contains(pid) && s.pending[pid].image_id
                            == id;
                    assert(model::expired(s, now, pid));
                }
            }
            assert(self@.images =~= t.images);
            assert(self@ =~= t);
            accounting::expiry_keeps_wf(s, now);
            assert forall|pid: u32| #[trigger] model::expired(s, now, pid) implies exists|j: int|
                0 <= j < out@.len() && (#[trigger] out@[j]).0.0 == pid by {
                assert(s.pending.contains_key(pid));
                let p = choose|p: int| 0 <= p < ids@.len() && ids@[p] == pid;
                assert(model::expired(s, now, ids@[p]));
            }
        }
        out
    }
}

/// The expired requests among some.
pub open spec fn expired_among(s: StoreView, now: u64, ids: Seq<u32>) -> Set<u32> {
    Set::new(|pid: u32| ids.contains(pid) && model::expired(s, now, pid))
}

/// The images that an expired request among some was for.
pub open spec fn images_of_expired(s: StoreView, now: u64, ids: Seq<u32>) -> Set<u32> {
    Set::new(
        |id: u32|
            exists|pid: u32| #[trigger]
                expired_among(s, now, ids).contains(pid) && s.pending[pid].image_id == id,
    )
}

/// Whether a payload of this size still fits the cap, and the refusal if not.
fn budget(total_bytes: usize, cap_bytes: usize, width: u32, height: u32, mirrored: bool) -> (room:
    Result<usize, DecodeError>)
    ensures
        ({
            let needed = model::charge(width, height, mirrored);
            match room {
                Ok(n) => total_bytes + needed <= cap_bytes && n == needed,
                Err(e) => total_bytes + needed > cap_bytes && e == (DecodeError::BudgetExceeded {
                    needed: if needed > usize::MAX {
                        usize::MAX
                    } else {
                        needed as usize
                    },
                    available: if total_bytes > cap_bytes {
                        0
                    } else {
                        (cap_bytes - total_bytes) as usize
                    },
                }),
            }
        }),
{
    proof {
        assert(0 <= width * height <= 0xffff_ffff * 0xffff_ffff) by (nonlinear_arith)
            requires
                0 <= width <= 0xffff_ffff,
                0 <= height <= 0xffff_ffff,
        ;
    }
    let texture: u128 = width as u128 * height as u128 * 4;
    let needed: u128 = if mirrored {
        texture * 2
    } else {
        texture
    };
    if total_bytes as u128 + needed > cap_bytes as u128 {
        let available: usize = if total_bytes > cap_bytes {
            0
        } else {
            cap_bytes - total_bytes
        };
        let needed: usize = if needed > usize::MAX as u128 {
            usize::MAX
        } else {
            needed as usize
        };
        Err(DecodeError::BudgetExceeded { needed, available })
    } else {
        Ok(needed as usize)
    }
}

/// `a - b`, and zero below.
fn less(a: usize, b: usize) -> (out: usize)
    ensures
        out == model::less(a as int, b as int),
{
    if a < b {
        0
    } else {
        a - b
    }
}

impl Store {
    /// Fills the base of an image with decoded pixels.
    fn finish_base_decode(
        &mut self,
        pid: u32,
        image_id: u32,
        decoded: DecodedPixels,
        keep_rgba: bool,
        label: Option<String>,
        nearest_filter: bool,
        now: u64,
        uploads: &mut Vec<Upload>,
    ) -> (outcome: Result<ImageId, DecodeError>)
        requires
            old(self)@.images.contains_key(image_id) || old(self)@.total_bytes + model::charge(
                decoded.width,
                decoded.height,
                keep_rgba,
            ) > old(self)@.cap_bytes,
        ensures
            ({
                let effect = model::base_decoded(
                    old(self)@,
                    pid,
                    image_id,
                    decoded@,
                    keep_rgba,
                    model::label_view(label),
                    nearest_filter,
                    now,
                );
                &&& final(self)@ == effect.store
                &&& effect.outcome == Some((PendingId(pid), outcome))
                &&& upload_views(final(uploads)@) == upload_views(old(uploads)@)
                    + model::at_most_one(effect.upload)
            }),
    {
        let ghost s = self@;
        let ghost effect = model::base_decoded(
            s,
            pid,
            image_id,
            decoded@,
            keep_rgba,
            model::label_view(label),
            nearest_filter,
            now,
        );
        let needed: usize = match budget(
            self.total_bytes,
            self.cap_bytes,
            decoded.width,
            decoded.height,
            keep_rgba,
        ) {
            Ok(n) => n,
            Err(e) => {
                self.images.remove(&image_id);
                proof {
                    assert(self@ =~= effect.store);
                    assert(upload_views(uploads@) + model::at_most_one(effect.upload)
                        =~= upload_views(uploads@));
                }
                return Err(e);
            },
        };
        let preview: Option<Preview> = build_preview(
            decoded.rgba.as_slice(),
            decoded.width,
            decoded.height,
        );
        let image = GpuImage {
            width_px: decoded.width,
            height_px: decoded.height,
            texture: TextureKey { image: image_id, slot: FrameSlot::Base },
        };
        assert(self@.images.contains_key(image_id));
        let mut entry: StoredImage = self.images.remove(&image_id).unwrap();
        let ghost was = entry@;
        assert(was == s.images[image_id]);
        entry.image = Some(image);
        entry.preview = preview;
        entry.bytes = needed;
        entry.last_used = now;
        entry.base_dims = Some((decoded.width, decoded.height));
        if keep_rgba {
            entry.base_rgba = Some(copy_bytes(&decoded.rgba));
        }
        let ghost filled = entry@;
        self.images.insert(image_id, entry);
        self.total_bytes = self.total_bytes + needed;
        let ghost ordered = uploads@;
        uploads.push(Upload { image, rgba: decoded.rgba, nearest_filter, label });
        proof {
            assert(filled =~= effect.store.images[image_id]);
            assert(self@.images =~= s.images.insert(image_id, filled));
            assert(self@ =~= effect.store);
            assert(upload_views(uploads@) =~= upload_views(ordered) + model::at_most_one(
                effect.upload,
            ));
        }
        Ok(ImageId(image_id))
    }
}

/// The pixels to compose a frame onto.
fn source_pixels(parent: &StoredImage, compose_base: Option<u32>, blank: usize) -> (rgba: Vec<u8>)
    ensures
        rgba@ == model::compose_source(parent@, compose_base, blank as nat),
{
    let chosen: usize = match compose_base {
        Some(n) => n as usize,
        None => parent.frames.len(),
    };
    if 1 <= chosen && chosen <= parent.frames.len() {
        copy_bytes(&parent.frames[chosen - 1].rgba)
    } else {
        match &parent.base_rgba {
            Some(rgba) => copy_bytes(rgba),
            None => {
                let rgba: Vec<u8> = vec![0u8; blank];
                assert(rgba@ =~= Seq::new(blank as nat, |i: int| 0u8));
                rgba
            },
        }
    }
}

impl Store {
    /// Composes decoded pixels into a frame of an image.
    fn finish_frame_decode(
        &mut self,
        pid: u32,
        parent_id: u32,
        decoded: DecodedPixels,
        dst_x: u32,
        dst_y: u32,
        compose_base: Option<u32>,
        delay_ms: u32,
        target_slot: Option<u32>,
        label: Option<String>,
        nearest_filter: bool,
        now: u64,
        uploads: &mut Vec<Upload>,
    ) -> (outcome: Result<ImageId, DecodeError>)
        requires
            old(self).wf(),
        ensures
            ({
                let effect = model::frame_decoded(
                    old(self)@,
                    pid,
                    parent_id,
                    decoded@,
                    dst_x,
                    dst_y,
                    compose_base,
                    delay_ms,
                    target_slot,
                    model::label_view(label),
                    nearest_filter,
                    now,
                );
                &&& final(self)@ == effect.store
                &&& effect.outcome == Some((PendingId(pid), outcome))
                &&& upload_views(final(uploads)@) == upload_views(old(uploads)@)
                    + model::at_most_one(effect.upload)
            }),
    {
        let ghost s = self@;
        let ghost ordered = uploads@;
        let ghost effect = model::frame_decoded(
            s,
            pid,
            parent_id,
            decoded@,
            dst_x,
            dst_y,
            compose_base,
            delay_ms,
            target_slot,
            model::label_view(label),
            nearest_filter,
            now,
        );
        let dims: Option<(u32, u32)> = match self.images.get(&parent_id) {
            Some(parent) => parent.base_dims,
            None => None,
        };
        let (base_w, base_h): (u32, u32) = match dims {
            Some(d) => d,
            None => {
                assert(upload_views(ordered) + model::at_most_one(effect.upload) =~= upload_views(
                    ordered,
                ));
                return Err(DecodeError::ParentNotReady);
            },
        };
        assert(s.images.contains_key(parent_id) && s.images[parent_id].base_dims == Some(
            (base_w, base_h),
        ));
        let needed: usize = match budget(self.total_bytes, self.cap_bytes, base_w, base_h, true) {
            Ok(n) => n,
            Err(e) => {
                assert(upload_views(ordered) + model::at_most_one(effect.upload) =~= upload_views(
                    ordered,
                ));
                return Err(e);
            },
        };
        let mut parent: StoredImage = self.images.remove(&parent_id).unwrap();
        let ghost was = parent@;
        assert(was == s.images[parent_id]);
        let rgba: Vec<u8> = if compose_base.is_none() && dst_x == 0 && dst_y == 0 && decoded.width
            == base_w && decoded.height == base_h {
            copy_bytes(&decoded.rgba)
        } else {
            let source: Vec<u8> = source_pixels(&parent, compose_base, needed / 2);
            composite_rgba(
                source.as_slice(),
                base_w,
                base_h,
                decoded.rgba.as_slice(),
                decoded.width,
                decoded.height,
                dst_x,
                dst_y,
            )
        };
        assert(rgba@ == model::frame_pixels(
            was,
            (base_w, base_h),
            decoded@,
            dst_x,
            dst_y,
            compose_base,
        ));
        let count: usize = parent.frames.len();
        let place: usize = match target_slot {
            Some(n) => if n >= 2 && ((n - 2) as usize) < count {
                (n - 2) as usize
            } else {
                count
            },
            None => count,
        };
        assert(place == model::frame_place(was.frames, target_slot));
        proof {
            accounting::bytes_of_one(s.images, parent_id, model::id_end());
            assert(model::bytes_of(s.images, parent_id) == was.bytes);
        }
        let image = GpuImage {
            width_px: base_w,
            height_px: base_h,
            texture: TextureKey { image: parent_id, slot: FrameSlot::Frame(place) },
        };
        let upload = Upload { image, rgba: copy_bytes(&rgba), nearest_filter, label };
        let frame = Frame { image, rgba, delay_ms, bytes: needed };
        let ghost frame_view = frame@;
        let replaced: usize = if place < count {
            let bytes: usize = parent.frames[place].bytes;
            parent.frames[place] = frame;
            bytes
        } else {
            parent.frames.push(frame);
            0
        };
        parent.bytes = less(parent.bytes + needed, replaced);
        parent.last_used = now;
        let ghost entry = parent@;
        proof {
            assert(entry.frames =~= if place < count {
                was.frames.update(place as int, frame_view)
            } else {
                was.frames.push(frame_view)
            });
            assert(entry =~= effect.store.images[parent_id]);
        }
        self.images.insert(parent_id, parent);
        self.total_bytes = less(self.total_bytes + needed, replaced);
        uploads.push(upload);
        proof {
            assert(self@.images =~= s.images.insert(parent_id, entry));
            assert(self@ =~= effect.store);
            assert(upload_views(uploads@) =~= upload_views(ordered) + model::at_most_one(
                effect.upload,
            ));
        }
        Ok(ImageId(parent_id))
    }
}

impl Store {
    /// Takes in one decode result.
    fn deliver(
        &mut self,
        result: DecodeResult,
        nearest_filter: bool,
        now: u64,
        uploads: &mut Vec<Upload>,
    ) -> (outcome: Option<Outcome>)
        requires
            old(self).wf(),
            model::deliverable(old(self)@, result@),
        ensures
            final(self).wf(),
            ({
                let effect = model::delivered(old(self)@, result@, nearest_filter, now);
                &&& final(self)@ == effect.store
                &&& outcome == effect.outcome
                &&& upload_views(final(uploads)@) == upload_views(old(uploads)@)
                    + model::at_most_one(effect.upload)
            }),
    {
        let ghost s = self@;
        let ghost ordered = uploads@;
        let ghost effect = model::delivered(s, result@, nearest_filter, now);
        proof {
            accounting::delivery_keeps_wf(s, result@, nearest_filter, now);
            if effect.upload is None {
                assert(upload_views(ordered) + model::at_most_one(effect.upload) =~= upload_views(
                    ordered,
                ));
            }
        }
        let pid: u32 = result.pending_id;
        let request: PendingRequest = match self.pending.remove(&pid) {
            Some(request) => request,
            None => {
                assert(self@ =~= s);
                return None;
            },
        };
        let ghost rest = model::without_pending(s, pid);
        proof {
            assert(self@ =~= rest);
            accounting::dropping_keeps_wf(s, rest);
        }
        let outcome: Result<ImageId, DecodeError> = match result.outcome {
            Err(e) => {
                let base = match request.kind {
                    PendingKind::Base { .. } => true,
                    PendingKind::Frame { .. } => false,
                };
                if base {
                    self.images.remove(&request.image_id);
                }
                assert(self@ =~= effect.store);
                Err(e)
            },
            Ok(decoded) => match request.kind {
                PendingKind::Base { keep_rgba } => self.finish_base_decode(
                    pid,
                    request.image_id,
                    decoded,
                    keep_rgba,
                    result.label,
                    nearest_filter,
                    now,
                    uploads,
                ),
                PendingKind::Frame { dst_x, dst_y, compose_base, delay_ms, target_slot } => {
                    self.finish_frame_decode(
                        pid,
                        request.image_id,
                        decoded,
                        dst_x,
                        dst_y,
                        compose_base,
                        delay_ms,
                        target_slot,
                        result.label,
                        nearest_filter,
                        now,
                        uploads,
                    )
                },
            },
        };
        Some((PendingId(pid), outcome))
    }

    /// Whether the store can take a result now: a decoded base needs the
    /// reservation that it fills, unless the cap refuses it.
    pub fn can_deliver(&self, result: &DecodeResult) -> (b: bool)
        ensures
            b == model::deliverable(self@, result@),
    {
        match self.pending.get(&result.pending_id) {
            None => true,
            Some(request) => match (&result.outcome, request.kind) {
                (Ok(pixels), PendingKind::Base { keep_rgba }) => {
                    self.images.contains_key(&request.image_id) || budget(
                        self.total_bytes,
                        self.cap_bytes,
                        pixels.width,
                        pixels.height,
                        keep_rgba,
                    ).is_err()
                },
                _ => true,
            },
        }
    }

    /// Whether a request for this image has waited too long.
    fn image_expires(&self, now: u64, id: u32) -> (b: bool)
        ensures
            b == model::expires(self@, now, id),
    {
        let ids: Vec<u32> = keys_of(&self.pending);
        let mut i: usize = 0;
        while i < ids.len()
            invariant
                i <= ids@.len(),
                forall|k: u32| #[trigger] self.pending@.contains_key(k) <==> ids@.contains(k),
                forall|j: int|
                    0 <= j < i ==> {
                        let r = self.pending@[#[trigger] ids@[j]];
                        !(now - r.issued_at > r.timeout && r.image_id == id)
                    },
            decreases ids@.len() - i,
        {
            let pid: u32 = ids[i];
            assert(ids@.contains(pid));
            if let Some(request) = self.pending.get(&pid) {
                if now > request.issued_at && now - request.issued_at > request.timeout
                    && request.image_id == id {
                    assert(model::expired(self@, now, pid));
                    return true;
                }
            }
            i = i + 1;
        }
        proof {
            if model::expires(self@, now, id) {
                let pid = choose|pid: u32| #[trigger]
                    model::expired(self@, now, pid) && self@.pending[pid].image_id == id;
                assert(self.pending@.contains_key(pid));
                assert(ids@.contains(pid));
                let j = choose|j: int| 0 <= j < ids@.len() && ids@[j] == pid;
                assert(ids@[j] == pid);
            }
        }
        false
    }

    /// Whether a poll can take in any results: every image whose base is still
    /// to come stays reserved when the requests that waited too long are
    /// dropped.
    pub fn can_poll(&self, now: u64) -> (b: bool)
        ensures
            b == model::reserved(poll_start(self@, now)),
    {
        let ids: Vec<u32> = keys_of(&self.pending);
        let ghost start = poll_start(self@, now);
        let mut i: usize = 0;
        while i < ids.len()
            invariant
                i <= ids@.len(),
                start == poll_start(self@, now),
                forall|k: u32| #[trigger] self.pending@.contains_key(k) <==> ids@.contains(k),
                forall|j: int|
                    0 <= j < i ==> {
                        let r = self.pending@[#[trigger] ids@[j]];
                        r.kind is Base && start.pending.contains_key(ids@[j])
                            ==> start.images.contains_key(r.image_id)
                    },
            decreases ids@.len() - i,
        {
            let pid: u32 = ids[i];
            assert(ids@.contains(pid));
            if let Some(request) = self.pending.get(&pid) {
                let base = match request.kind {
                    PendingKind::Base { .. } => true,
                    PendingKind::Frame { .. } => false,
                };
                let late = now > request.issued_at && now - request.issued_at > request.timeout;
                assert(late == model::expired(self@, now, pid));
                if base && !late && (!self.images.contains_key(&request.image_id)
                    || self.image_expires(now, request.image_id)) {
                    assert(start.pending.contains_key(pid));
                    return false;
                }
            }
            i = i + 1;
        }
        proof {
            assert forall|pid: u32| #[trigger]
                start.pending.contains_key(pid)
                    && start.pending[pid].kind is Base implies start.images.contains_key(
                start.pending[pid].image_id,
            ) by {
                assert(self.pending@.contains_key(pid));
                assert(ids@.contains(pid));
                let j = choose|j: int| 0 <= j < ids@.len() && ids@[j] == pid;
                assert(ids@[j] == pid);
            }
        }
        true
    }

    /// Drops the requests that waited too long with their images, takes in the
    /// pixels that were set aside and then the worker's results, and says which textures to
    /// upload. A result whose request has timed out is dropped. Call once per
    /// frame.
    pub fn poll(&mut self, results: Vec<DecodeResult>, nearest_filter: bool, now: u64) -> (polled:
        Polled)
        requires
            old(self).wf(),
            model::all_deliverable(
                poll_start(old(self)@, now),
                old(self)@.immediate_results + result_views(results@),
                nearest_filter,
                now,
            ),
        ensures
            final(self).wf(),
            ({
                let batch = model::delivered_all(
                    poll_start(old(self)@, now),
                    old(self)@.immediate_results + result_views(results@),
                    nearest_filter,
                    now,
                );
                &&& final(self)@ == batch.store
                &&& upload_views(polled.uploads@) == batch.uploads
                &&& exists|timeouts: Seq<Outcome>| #[trigger]
                    model::reports_expiry(old(self)@, now, timeouts) && polled.outcomes@ == timeouts
                        + batch.outcomes
            }),
    {
        let ghost s = self@;
        let mut results = results;
        let ghost given = results@;
        let mut outcomes: Vec<Outcome> = self.expire(now);
        let ghost timeouts = outcomes@;
        let mut queue: Vec<DecodeResult> = Vec::new();
        std::mem::swap(&mut queue, &mut self.immediate_results);
        queue.append(&mut results);
        let ghost start = poll_start(s, now);
        let ghost all = s.immediate_results + result_views(given);
        proof {
            assert(self@ =~= start);
            accounting::dropping_keeps_wf(model::after_expiry(s, now), start);
            assert(result_views(queue@) =~= all);
        }
        let ghost arrived = queue@;
        let mut uploads: Vec<Upload> = Vec::new();
        assert(upload_views(uploads@) =~= Seq::<UploadView>::empty());
        assert(all.take(0) =~= Seq::<ResultView>::empty());
        assert(outcomes@ =~= timeouts + Seq::<Outcome>::empty());
        for result in it: queue
            invariant
                it.seq() == arrived,
                result_views(arrived) == all,
                model::all_deliverable(start, all, nearest_filter, now),
                self.wf(),
                ({
                    let batch = model::delivered_all(
                        start,
                        all.take(it.index() as int),
                        nearest_filter,
                        now,
                    );
                    &&& self@ == batch.store
                    &&& upload_views(uploads@) == batch.uploads
                    &&& outcomes@ == timeouts + batch.outcomes
                }),
        {
            let ghost i = it.index() as int;
            let ghost before = model::delivered_all(start, all.take(i), nearest_filter, now);
            proof {
                assert(result == arrived[i]);
                assert(result@ == all[i]);
                assert(model::deliverable(before.store, all[i]));
                assert(all.take(i + 1).drop_last() =~= all.take(i));
                assert(all.take(i + 1).last() == all[i]);
            }
            match self.deliver(result, nearest_filter, now, &mut uploads) {
                Some(outcome) => {
                    outcomes.push(outcome);
                },
                None => {},
            }
            proof {
                let after = model::delivered_all(start, all.take(i + 1), nearest_filter, now);
                assert(outcomes@ =~= timeouts + after.outcomes);
            }
        }
        assert(all.take(all.len() as int) =~= all);
        Polled { outcomes, uploads }
    }
}

/// The store when a poll starts to take results in: without the requests that
/// have timed out, and with nothing set aside any more.
pub open spec fn poll_start(s: StoreView, now: u64) -> StoreView {
    StoreView { immediate_results: Seq::empty(), ..model::after_expiry(s, now) }
}

/// What the decode worker makes of a job.
pub open spec fn job_outcome(job: JobView, result: ResultView) -> bool {
    &&& result.pending_id == job.pending_id
    &&& result.label == job.label
    &&& exists|image: Result<(Vec<u8>, u32, u32), DecodeError>| #[trigger]
        decode::decode_outcome(
            decode::header_dimensions(job.bytes),
            decode::palette_sound(job.bytes),
            decode::decoded_image(job.bytes),
            job.max_pixels,
            image,
        ) && result.outcome == match image {
            Ok((rgba, width, height)) => Ok::<model::PixelsView, DecodeError>(
                model::PixelsView { rgba: rgba@, width, height },
            ),
            Err(e) => Err(e),
        }
}

/// Decodes one job, for the store to take in.
pub fn run_decode_job(job: DecodeJob) -> (result: DecodeResult)
    ensures
        job_outcome(job@, result@),
        result.outcome matches Ok(pixels) ==> pixels.rgba@.len() == pixels.width * pixels.height
            * 4,
{
    let image: Result<(Vec<u8>, u32, u32), DecodeError> = decode_to_rgba(
        job.bytes.as_slice(),
        job.max_pixels,
    );
    let ghost decoded = image;
    let outcome: Result<DecodedPixels, DecodeError> = match image {
        Ok((rgba, width, height)) => Ok(DecodedPixels { rgba, width, height }),
        Err(e) => Err(e),
    };
    let result = DecodeResult { pending_id: job.pending_id, label: job.label, outcome };
    assert(decode::decode_outcome(
        decode::header_dimensions(job@.bytes),
        decode::palette_sound(job@.bytes),
        decode::decoded_image(job@.bytes),
        job@.max_pixels,
        decoded,
    ));
    result
}

/// The texture of an image at a moment: the frame on display, or the base
/// where that frame is gone.
pub open spec fn displayed_texture(entry: StoredView, now: u64) -> Option<GpuImage> {
    let n = entry::displayed_frame(entry, now);
    if n == 0 {
        entry.image
    } else {
        Some(entry.frames[n - 1].image)
    }
}

impl Store {
    /// Changes the playback of an image. An unknown id changes nothing.
    pub fn apply_animation_control(
        &mut self,
        id: ImageId,
        control: Option<u32>,
        loop_count: Option<u32>,
        make_current: Option<u32>,
        edit_frame: Option<u32>,
        edit_gap_ms: Option<u32>,
        now: u64,
    )
        requires
            old(self).wf(),
        ensures
            final(self).wf(),
            final(self)@ == if old(self)@.images.contains_key(id.0) {
                StoreView {
                    images: old(self)@.images.insert(
                        id.0,
                        entry::controlled(
                            old(self)@.images[id.0],
                            control,
                            loop_count,
                            make_current,
                            edit_frame,
                            edit_gap_ms,
                            now,
                        ),
                    ),
                    ..old(self)@
                }
            } else {
                old(self)@
            },
    {
        let ghost s = self@;
        if let Some(mut entry) = self.images.remove(&id.0) {
            let ghost was = entry@;
            entry.control(control, loop_count, make_current, edit_frame, edit_gap_ms, now);
            let ghost changed = entry@;
            self.images.insert(id.0, entry);
            proof {
                assert(was == s.images[id.0]);
                assert(self@.images =~= s.images.insert(id.0, changed));
                control_keeps_bytes(
                    was,
                    control,
                    loop_count,
                    make_current,
                    edit_frame,
                    edit_gap_ms,
                    now,
                );
                entry_change_keeps_wf(s, self@, id.0);
            }
        } else {
            assert(self@ =~= s);
        }
    }

    /// Number of requests in flight.
    pub fn pending_count(&self) -> (n: usize)
        ensures
            n == self@.pending.len(),
    {
        self.pending.len()
    }

    /// The base texture of an image, marking the image as used. `None` for an
    /// unknown id and for an image whose decode is in flight.
    pub fn get(&mut self, id: ImageId, now: u64) -> (image: Option<GpuImage>)
        requires
            old(self).wf(),
        ensures
            final(self).wf(),
            image == if old(self)@.images.contains_key(id.0) {
                old(self)@.images[id.0].image
            } else {
                None
            },
            final(self)@ == if old(self)@.images.contains_key(id.0) {
                StoreView {
                    images: old(self)@.images.insert(
                        id.0,
                        StoredView { last_used: now, ..old(self)@.images[id.0] },
                    ),
                    ..old(self)@
                }
            } else {
                old(self)@
            },
    {
        let ghost s = self@;
        if let Some(mut entry) = self.images.remove(&id.0) {
            let ghost was = entry@;
            entry.last_used = now;
            let image: Option<GpuImage> = entry.image;
            let ghost changed = entry@;
            self.images.insert(id.0, entry);
            proof {
                assert(was == s.images[id.0]);
                assert(changed =~= StoredView { last_used: now, ..was });
                assert(self@.images =~= s.images.insert(id.0, changed));
                entry_change_keeps_wf(s, self@, id.0);
            }
            image
        } else {
            assert(self@ =~= s);
            None
        }
    }

    /// The base texture of an image. `None` in the same cases as
    /// [`Store::get`].
    pub fn peek(&self, id: ImageId) -> (image: Option<&GpuImage>)
        ensures
            match image {
                Some(g) => self@.images.contains_key(id.0) && self@.images[id.0].image == Some(*g),
                None => !self@.images.contains_key(id.0) || self@.images[id.0].image is None,
            },
    {
        match self.images.get(&id.0) {
            Some(entry) => entry.image.as_ref(),
            None => None,
        }
    }

    /// The texture of the frame to show at `now`. An image without frames
    /// shows its base.
    pub fn peek_at(&self, id: ImageId, now: u64) -> (image: Option<&GpuImage>)
        ensures
            match image {
                Some(g) => self@.images.contains_key(id.0) && displayed_texture(
                    self@.images[id.0],
                    now,
                ) == Some(*g),
                None => !self@.images.contains_key(id.0) || displayed_texture(
                    self@.images[id.0],
                    now,
                ) is None,
            },
    {
        match self.images.get(&id.0) {
            Some(entry) => {
                let n: usize = resolve_current_frame(entry, now);
                assert(self@.images[id.0] == entry@);
                if n == 0 {
                    entry.image.as_ref()
                } else {
                    Some(&entry.frames[n - 1].image)
                }
            },
            None => None,
        }
    }

    /// Number of frames after the base; zero for an unknown id.
    pub fn frame_count(&self, id: ImageId) -> (n: usize)
        ensures
            n == if self@.images.contains_key(id.0) {
                self@.images[id.0].frames.len()
            } else {
                0
            },
    {
        match self.images.get(&id.0) {
            Some(entry) => entry.frames.len(),
            None => 0,
        }
    }

    /// The playback state of an image.
    pub fn animation_state(&self, id: ImageId) -> (state: Option<AnimationState>)
        ensures
            state == if self@.images.contains_key(id.0) {
                Some(self@.images[id.0].animation)
            } else {
                None
            },
    {
        match self.images.get(&id.0) {
            Some(entry) => Some(entry.animation),
            None => None,
        }
    }

    /// Sets the playback state of an image as a whole. An unknown id changes
    /// nothing.
    pub fn force_animation_state_for_test(&mut self, id: ImageId, state: AnimationState)
        requires
            old(self).wf(),
        ensures
            final(self).wf(),
            final(self)@ == if old(self)@.images.contains_key(id.0) {
                StoreView {
                    images: old(self)@.images.insert(
                        id.0,
                        StoredView { animation: state, ..old(self)@.images[id.0] },
                    ),
                    ..old(self)@
                }
            } else {
                old(self)@
            },
    {
        let ghost s = self@;
        if let Some(mut entry) = self.images.remove(&id.0) {
            let ghost was = entry@;
            entry.animation = state;
            let ghost changed = entry@;
            self.images.insert(id.0, entry);
            proof {
                assert(was == s.images[id.0]);
                assert(changed =~= StoredView { animation: state, ..was });
                assert(self@.images =~= s.images.insert(id.0, changed));
                entry_change_keeps_wf(s, self@, id.0);
            }
        } else {
            assert(self@ =~= s);
        }
    }

    /// The earliest moment at which the frame on display of some image gives way
    /// to the next one. `None` when no image is animating.
    pub fn next_frame_deadline(&self, now: u64) -> (deadline: Option<u128>)
        ensures
            match deadline {
                Some(d) => {
                    &&& exists|id: u32| #[trigger]
                        self@.images.contains_key(id) && entry::animating(self@.images[id], now) && d == entry::wake_time(self@.images[id], now)
                    &&& forall|id: u32| #[trigger]
                        self@.images.contains_key(id) && entry::animating(self@.images[id], now) ==> d <= entry::wake_time(self@.images[id], now)
                },
                None => forall|id: u32| #[trigger]
                    self@.images.contains_key(id) ==> !entry::animating(self@.images[id], now),
            },
    {
        let ids: Vec<u32> = keys_of(&self.images);
        let mut earliest: Option<u128> = None;
        let mut i: usize = 0;
        while i < ids.len()
            invariant
                i <= ids@.len(),
                forall|k: u32| #[trigger] self.images@.contains_key(k) <==> ids@.contains(k),
                match earliest {
                    Some(d) => {
                        &&& exists|j: int|
                            0 <= j < i && entry::animating(self@.images[#[trigger] ids@[j]], now) && d == entry::wake_time(self@.images[ids@[j]], now)
                        &&& forall|j: int|
                            0 <= j < i && entry::animating(self@.images[#[trigger] ids@[j]], now) ==> d <= entry::wake_time(self@.images[ids@[j]], now)
                    },
                    None => forall|j: int|
                        0 <= j < i ==> !entry::animating(self@.images[#[trigger] ids@[j]], now),
                },
            decreases ids@.len() - i,
        {
            let id: u32 = ids[i];
            assert(ids@.contains(id));
            assert(self.images@.contains_key(id));
            let entry: &StoredImage = self.images.get(&id).unwrap();
            assert(entry@ == self@.images[ids@[i as int]]);
            if let Some(d) = entry.next_deadline(now) {
                earliest = match earliest {
                    Some(e) => if e < d {
                        Some(e)
                    } else {
                        Some(d)
                    },
                    None => Some(d),
                };
            }
            i = i + 1;
        }
        proof {
            assert forall|id: u32| #[trigger] self@.images.contains_key(id) implies exists|j: int|
                0 <= j < ids@.len() && #[trigger] ids@[j] == id by {
                assert(self.images@.contains_key(id));
            }
            if let Some(d) = earliest {
                let j = choose|j: int|
                    0 <= j < ids@.len() && entry::animating(self@.images[#[trigger] ids@[j]], now) && d == entry::wake_time(self@.images[ids@[j]], now);
                assert(ids@.contains(ids@[j]));
                assert(self.images@.contains_key(ids@[j]));
                assert(self@.images.contains_key(ids@[j]));
            }
        }
        earliest
    }

    /// The half-block preview of an image, once it is decoded.
    pub fn preview(&self, id: ImageId) -> (preview: Option<&Preview>)
        ensures
            match preview {
                Some(p) => self@.images.contains_key(id.0) && self@.images[id.0].preview == Some(
                    p@,
                ),
                None => !self@.images.contains_key(id.0) || self@.images[id.0].preview is None,
            },
    {
        match self.images.get(&id.0) {
            Some(entry) => entry.preview.as_ref(),
            None => None,
        }
    }

    /// Whether an image is reserved and its decode in flight. An unknown id is
    /// not pending.
    pub fn is_pending(&self, id: ImageId) -> (b: bool)
        ensures
            b == (self@.images.contains_key(id.0) && self@.images[id.0].image is None),
    {
        match self.images.get(&id.0) {
            Some(entry) => entry.image.is_none(),
            None => false,
        }
    }

    /// Bytes charged for all images.
    pub fn bytes(&self) -> (n: usize)
        ensures
            n == self@.total_bytes,
            self.wf() ==> n == model::image_bytes(self@.images),
    {
        self.total_bytes
    }

    /// The cap on [`Store::bytes`].
    pub fn cap_bytes(&self) -> (n: usize)
        ensures
            n == self@.cap_bytes,
    {
        self.cap_bytes
    }

    /// Number of images, reserved ones counted.
    pub fn len(&self) -> (n: usize)
        ensures
            n == self@.images.len(),
    {
        assert(self@.images.dom() =~= self.images@.dom());
        self.images.len()
    }

    /// Whether the store holds no image.
    pub fn is_empty(&self) -> (b: bool)
        ensures
            b == (self@.images.len() == 0),
    {
        assert(self@.images.dom() =~= self.images@.dom());
        self.images.is_empty()
    }

    /// Drops every image whose id is not in `keep`, and recomputes the bytes
    /// from those that stay.
    pub fn retain(&mut self, keep: &HashSet<u32>)
        requires
            old(self).wf(),
        ensures
            final(self).wf(),
            final(self)@ == model::retained(old(self)@, keep@),
            final(self).total_bytes <= old(self).total_bytes,
    {
        let ghost s = self@;
        let ids: Vec<u32> = keys_of(&self.images);
        let mut kept: usize = 0;
        let mut i: usize = 0;
        proof {
            accounting::retaining_keeps_wf(s, keep@);
            assert(s.images.remove_keys(dropped_among(keep@, ids@.take(0))) =~= s.images);
            assert(s.images.restrict(keep@).remove_keys(ids@.take(0).to_set()) =~= s.images.restrict(
                keep@,
            ));
        }
        while i < ids.len()
            invariant
                i <= ids@.len(),
                ids@.no_duplicates(),
                forall|k: u32| #[trigger] s.images.contains_key(k) <==> ids@.contains(k),
                model::image_bytes(s.images.restrict(keep@)) <= s.total_bytes,
                self@.images == s.images.remove_keys(dropped_among(keep@, ids@.take(i as int))),
                self@ == (StoreView { images: self@.images, ..s }),
                kept + model::image_bytes(
                    s.images.restrict(keep@).remove_keys(ids@.take(i as int).to_set()),
                ) == model::image_bytes(s.images.restrict(keep@)),
            decreases ids@.len() - i,
        {
            let id: u32 = ids[i];
            let ghost done = ids@.take(i as int);
            let ghost next = ids@.take(i as int + 1);
            let ghost left = s.images.restrict(keep@).remove_keys(done.to_set());
            let ghost after = s.images.restrict(keep@).remove_keys(next.to_set());
            proof {
                assert(ids@.contains(id));
                assert(!done.contains(id)) by {
                    if done.contains(id) {
                        let j = choose|j: int| 0 <= j < done.len() && done[j] == id;
                        assert(ids@[j] == ids@[i as int]);
                    }
                }
                assert forall|k: u32| next.contains(k) <==> done.contains(k) || k == id by {
                    if next.contains(k) {
                        let j = choose|j: int| 0 <= j < next.len() && next[j] == k;
                        if j < done.len() {
                            assert(done[j] == k);
                        }
                    }
                    if done.contains(k) {
                        let j = choose|j: int| 0 <= j < done.len() && done[j] == k;
                        assert(next[j] == k);
                    }
                    assert(next[i as int] == id);
                }
                assert(after =~= left.remove(id));
                accounting::bytes_after_change(left, after, id, model::id_end());
                accounting::bytes_after_drop(after, after, model::id_end());
                assert(self@.images.contains_key(id));
            }
            if keep.contains(&id) {
                let entry: &StoredImage = self.images.get(&id).unwrap();
                let bytes: usize = entry.bytes;
                proof {
                    assert(entry@ == self@.images[id]);
                    assert(left.contains_key(id) && left[id] == s.images[id]);
                    assert(bytes == model::bytes_of(left, id));
                    assert(dropped_among(keep@, next) =~= dropped_among(keep@, done));
                }
                kept = kept + bytes;
            } else {
                let ghost before = self@;
                self.images.remove(&id);
                proof {
                    assert(model::bytes_of(left, id) == 0);
                    assert(self@.images =~= before.images.remove(id));
                    assert(self@.images =~= s.images.remove_keys(dropped_among(keep@, next)));
                }
            }
            i = i + 1;
        }
        proof {
            assert(ids@.take(ids@.len() as int) =~= ids@);
            let nothing = s.images.restrict(keep@).remove_keys(ids@.to_set());
            assert forall|k: u32| !(#[trigger] nothing.contains_key(k)) by {
                if s.images.contains_key(k) {
                    assert(ids@.contains(k));
                }
            }
            accounting::bytes_of_nothing(nothing, model::id_end());
            assert(self@.images =~= s.images.restrict(keep@));
        }
        self.total_bytes = kept;
        assert(self@ =~= model::retained(s, keep@));
    }
}

/// The ids among some that are not to be kept.
pub open spec fn dropped_among(keep: Set<u32>, ids: Seq<u32>) -> Set<u32> {
    Set::new(|id: u32| ids.contains(id) && !keep.contains(id))
}

/// A control changes neither the bytes of an image nor those of its frames,
/// nor its size.
proof fn control_keeps_bytes(
    entry: StoredView,
    control: Option<u32>,
    loop_count: Option<u32>,
    make_current: Option<u32>,
    edit_frame: Option<u32>,
    edit_gap_ms: Option<u32>,
    now: u64,
)
    ensures
        ({
            let after = entry::controlled(
                entry,
                control,
                loop_count,
                make_current,
                edit_frame,
                edit_gap_ms,
                now,
            );
            &&& after.bytes == entry.bytes
            &&& after.base_dims == entry.base_dims
            &&& after.frames.len() == entry.frames.len()
            &&& model::frame_bytes(after.frames) == model::frame_bytes(entry.frames)
        }),
{
    if let (Some(n), Some(gap)) = (edit_frame, edit_gap_ms) {
        if n >= 2 && n - 2 < entry.frames.len() {
            let frame = entry::FrameView {
                delay_ms: gap,
                ..entry.frames[n - 2]
            };
            accounting::frame_bytes_after_update(entry.frames, n - 2, frame);
        }
    }
}

/// Changing an entry in what the invariant does not speak of keeps it.
proof fn entry_change_keeps_wf(s: StoreView, t: StoreView, id: u32)
    requires
        model::store_wf(s),
        s.images.contains_key(id),
        t == (StoreView { images: s.images.insert(id, t.images[id]), ..s }),
        t.images[id].bytes == s.images[id].bytes,
        t.images[id].base_dims == s.images[id].base_dims,
        t.images[id].frames.len() == s.images[id].frames.len(),
        model::frame_bytes(t.images[id].frames) == model::frame_bytes(s.images[id].frames),
    ensures
        model::store_wf(t),
{
    accounting::bytes_after_change(s.images, t.images, id, model::id_end());
    assert forall|pid: u32| #[trigger]
        t.pending.contains_key(pid) && t.pending[pid].kind is Base && t.images.contains_key(
            t.pending[pid].image_id,
        ) implies t.images[t.pending[pid].image_id].base_dims is None
        && t.images[t.pending[pid].image_id].frames.len() == 0 by {
        assert(s.pending.contains_key(pid));
        assert(s.images.contains_key(s.pending[pid].image_id));
    }
}

/// Without a request that waited too long, a poll starts with the store as it is.
proof fn nothing_expires(s: StoreView, now: u64, timeouts: Seq<Outcome>)
    requires
        model::store_wf(s),
        forall|pid: u32| #[trigger]
            s.pending.contains_key(pid) ==> now <= s.pending[pid].issued_at
                + s.pending[pid].timeout,
    ensures
        model::after_expiry(s, now) == s,
        model::reports_expiry(s, now, timeouts) ==> timeouts.len() == 0,
{
    let t = model::after_expiry(s, now);
    assert forall|pid: u32| !model::expired(s, now, pid) by {}
    assert(t.pending =~= s.pending);
    assert forall|id: u32| !model::expires(s, now, id) by {}
    assert(t.images =~= s.images);
    if model::reports_expiry(s, now, timeouts) && timeouts.len() > 0 {
        assert(model::expired(s, now, timeouts[0].0.0));
    }
}

/// What one result leaves behind.
proof fn one_result(s: StoreView, result: ResultView, nearest_filter: bool, now: u64)
    ensures
        ({
            let batch = model::delivered_all(s, seq![result], nearest_filter, now);
            let effect = model::delivered(s, result, nearest_filter, now);
            &&& batch.store == effect.store
            &&& batch.outcomes == model::at_most_one(effect.outcome)
            &&& batch.uploads == model::at_most_one(effect.upload)
        }),
{
    let none = Seq::<ResultView>::empty();
    let one = seq![result];
    assert(one.drop_last() =~= none);
    assert(one.last() == result);
    let before = model::delivered_all(s, none, nearest_filter, now);
    let batch = model::delivered_all(s, one, nearest_filter, now);
    let effect = model::delivered(s, result, nearest_filter, now);
    assert(before.store == s);
    assert(batch.outcomes =~= model::at_most_one(effect.outcome));
    assert(batch.uploads =~= model::at_most_one(effect.upload));
}

/// A decoded base is charged four bytes for each pixel, and as many again where its
/// pixels are kept. If that fits the cap, its texture is ordered with the pixels as
/// they came and the image shows it; if not, the image is refused and gone, and
/// nothing is charged. Everything else stays.
#[verifier::rlimit(40)]
pub proof fn decoded_base_is_charged_and_shown(
    store: &mut Store,
    results: Vec<DecodeResult>,
    nearest_filter: bool,
    now: u64,
    polled: Polled,
    keep_rgba: bool,
    rgba: &[u8],
    preview: Option<Preview>,
)
    requires
        call_ensures(Store::poll, (store, results, nearest_filter, now), polled),
        old(store).wf(),
        old(store).immediate_results@.len() == 0,
        forall|pid: u32| #[trigger]
            old(store).pending@.contains_key(pid) ==> now <= old(store).pending@[pid].issued_at
                + old(store).pending@[pid].timeout,
        results@.len() == 1,
        results@[0].outcome is Ok,
        old(store).pending@.contains_key(results@[0].pending_id),
        old(store).pending@[results@[0].pending_id].kind == (PendingKind::Base { keep_rgba }),
        rgba@ == (results@[0].outcome->Ok_0).rgba@,
        call_ensures(
            build_preview,
            (rgba, (results@[0].outcome->Ok_0).width, (results@[0].outcome->Ok_0).height),
            preview,
        ),
    ensures
        ({
            let pid = results@[0].pending_id;
            let pixels = results@[0].outcome->Ok_0;
            let id = old(store).pending@[pid].image_id;
            let cost = 4 * (pixels.width * pixels.height) * if keep_rgba {
                2int
            } else {
                1
            };
            let (s, t) = (old(store)@, final(store)@);
            &&& t.pending == s.pending.remove(pid)
            &&& t.cap_bytes == s.cap_bytes
            &&& forall|other: u32|
                other != id ==> t.images.contains_key(other) == #[trigger] s.images.contains_key(
                    other,
                ) && (s.images.contains_key(other) ==> t.images[other] == s.images[other])
            &&& if s.total_bytes + cost <= s.cap_bytes {
                let texture = GpuImage {
                    width_px: pixels.width,
                    height_px: pixels.height,
                    texture: TextureKey { image: id, slot: FrameSlot::Base },
                };
                &&& polled.outcomes@ == seq![(PendingId(pid), Ok::<ImageId, DecodeError>(ImageId(id)))]
                &&& polled.uploads@.len() == 1
                &&& polled.uploads@[0].image == texture
                &&& polled.uploads@[0].rgba@ == pixels.rgba@
                &&& polled.uploads@[0].nearest_filter == nearest_filter
                &&& t.total_bytes == s.total_bytes + cost
                &&& t.images.contains_key(id)
                &&& t.images[id].image == Some(texture)
                &&& t.images[id].bytes == cost
                &&& t.images[id].base_dims == Some((pixels.width, pixels.height))
                &&& t.images[id].last_used == now
                &&& preview is None ==> t.images[id].preview is None
                &&& preview matches Some(p) ==> t.images[id].preview == Some(p@)
                &&& keep_rgba ==> t.images[id].base_rgba == Some(pixels.rgba@)
                &&& t.images[id].frames == s.images[id].frames
                &&& t.images[id].animation == s.images[id].animation
            } else {
                &&& polled.outcomes@.len() == 1
                &&& polled.outcomes@[0].0 == PendingId(pid)
                &&& polled.outcomes@[0].1 matches Err(DecodeError::BudgetExceeded {
                    needed,
                    available,
                }) && (cost <= usize::MAX ==> needed == cost) && available == s.cap_bytes
                    - s.total_bytes
                &&& polled.uploads@.len() == 0
                &&& !t.images.contains_key(id)
                &&& t.total_bytes == s.total_bytes
            }
        }),
{
    let s = old(store)@;
    let arrived = result_views(results@);
    let all = s.immediate_results + arrived;
    assert(all =~= seq![results@[0]@]);
    assert(all.last() == results@[0]@);
    nothing_expires(s, now, Seq::empty());
    let start = poll_start(s, now);
    assert(start =~= s);
    let effect = model::delivered(start, all.last(), nearest_filter, now);
    let batch = model::delivered_all(start, all, nearest_filter, now);
    one_result(start, results@[0]@, nearest_filter, now);
    let timeouts = choose|timeouts: Seq<Outcome>| #[trigger]
        model::reports_expiry(s, now, timeouts) && polled.outcomes@ == timeouts + batch.outcomes;
    nothing_expires(s, now, timeouts);
    assert(polled.outcomes@ =~= batch.outcomes);
    assert(upload_views(polled.uploads@).len() == polled.uploads@.len());
    let pixels = results@[0].outcome->Ok_0;
    let (w, h) = (pixels.width as int, pixels.height as int);
    assert(w * h * 4 == 4 * (w * h)) by (nonlinear_arith);
    accounting::charge_nonnegative(pixels.width, pixels.height, keep_rgba);
    if polled.uploads@.len() == 1 {
        assert(upload_views(polled.uploads@)[0] == polled.uploads@[0]@);
    }
}

/// What a frame is composed onto: without a choice the newest frame, and otherwise
/// the base for 0 and the `n`-th frame for `n`. A frame that does not exist stands
/// for the base, and a base whose pixels were not kept is blank.
pub open spec fn composes_onto(
    image: StoredView,
    choice: Option<u32>,
    size: int,
    source: Seq<u8>,
) -> bool {
    let n = match choice {
        Some(n) => n as int,
        None => image.frames.len() as int,
    };
    if 1 <= n <= image.frames.len() {
        source == image.frames[n - 1].rgba
    } else {
        match image.base_rgba {
            Some(rgba) => source == rgba,
            None => source.len() == size && forall|i: int| 0 <= i < size ==> #[trigger] source[i]
                == 0,
        }
    }
}

/// A decoded frame costs eight bytes for each pixel of its image. It takes the
/// place of the frame that it names, where 2 is the first after the base, and goes
/// behind the others where it names none. Its pixels are the payload over what it
/// is composed onto, unless the payload covers the image and no choice was made.
/// A frame that does not fit the cap, or whose image is not there, changes nothing.
#[verifier::rlimit(80)]
pub proof fn decoded_frame_takes_its_place(
    store: &mut Store,
    results: Vec<DecodeResult>,
    nearest_filter: bool,
    now: u64,
    polled: Polled,
    dst_x: u32,
    dst_y: u32,
    compose_base: Option<u32>,
    delay_ms: u32,
    target_slot: Option<u32>,
    source: &[u8],
    patch: &[u8],
    composed: Vec<u8>,
    w: u32,
    h: u32,
)
    requires
        call_ensures(Store::poll, (store, results, nearest_filter, now), polled),
        old(store).wf(),
        old(store).immediate_results@.len() == 0,
        forall|pid: u32| #[trigger]
            old(store).pending@.contains_key(pid) ==> now <= old(store).pending@[pid].issued_at
                + old(store).pending@[pid].timeout,
        results@.len() == 1,
        results@[0].outcome is Ok,
        old(store).pending@.contains_key(results@[0].pending_id),
        old(store).pending@[results@[0].pending_id].kind == (PendingKind::Frame {
            dst_x,
            dst_y,
            compose_base,
            delay_ms,
            target_slot,
        }),
        ({
            let id = old(store).pending@[results@[0].pending_id].image_id;
            let pixels = results@[0].outcome->Ok_0;
            &&& old(store)@.images.contains_key(id)
            &&& old(store)@.images[id].base_dims == Some((w, h))
            &&& patch@ == pixels.rgba@
            &&& composes_onto(old(store)@.images[id], compose_base, 4 * (w * h), source@)
            &&& call_ensures(
                composite_rgba,
                (source, w, h, patch, pixels.width, pixels.height, dst_x, dst_y),
                composed,
            )
        }),
    ensures
        ({
            let pid = results@[0].pending_id;
            let pixels = results@[0].outcome->Ok_0;
            let id = old(store).pending@[pid].image_id;
            let cost = 8 * (w * h);
            let (s, t) = (old(store)@, final(store)@);
            let (was, is_now) = (s.images[id], t.images[id]);
            let last = was.frames.len() as int;
            let place = if target_slot is Some && target_slot->0 >= 2 && target_slot->0 - 2 < last {
                target_slot->0 - 2
            } else {
                last
            };
            &&& t.pending == s.pending.remove(pid)
            &&& forall|other: u32|
                other != id ==> t.images.contains_key(other) == #[trigger] s.images.contains_key(
                    other,
                ) && (s.images.contains_key(other) ==> t.images[other] == s.images[other])
            &&& if s.total_bytes + cost <= s.cap_bytes {
                let frame = is_now.frames[place];
                &&& polled.outcomes@ == seq![(PendingId(pid), Ok::<ImageId, DecodeError>(ImageId(id)))]
                &&& t.images.contains_key(id)
                &&& is_now.frames.len() == if place < last {
                    last
                } else {
                    last + 1
                }
                &&& forall|i: int|
                    0 <= i < last && i != place ==> #[trigger] is_now.frames[i] == was.frames[i]
                &&& frame.delay_ms == delay_ms
                &&& frame.bytes == cost
                &&& frame.image == (GpuImage {
                    width_px: w,
                    height_px: h,
                    texture: TextureKey { image: id, slot: FrameSlot::Frame(place as usize) },
                })
                &&& frame.rgba == if compose_base is None && dst_x == 0 && dst_y == 0
                    && pixels.width == w && pixels.height == h {
                    pixels.rgba@
                } else {
                    composed@
                }
                &&& polled.uploads@.len() == 1 && polled.uploads@[0].rgba@ == frame.rgba
                    && polled.uploads@[0].image == frame.image
                &&& is_now.image == was.image && is_now.base_rgba == was.base_rgba
                    && is_now.base_dims == was.base_dims && is_now.animation == was.animation
                    && is_now.base_delay_ms == was.base_delay_ms
                &&& t.total_bytes == s.total_bytes + cost - if place < last {
                    was.frames[place].bytes as int
                } else {
                    0
                }
            } else {
                &&& polled.outcomes@.len() == 1 && polled.outcomes@[0].0 == PendingId(pid)
                &&& polled.outcomes@[0].1 matches Err(DecodeError::BudgetExceeded { .. })
                &&& polled.uploads@.len() == 0
                &&& t.images == s.images
                &&& t.total_bytes == s.total_bytes
            }
        }),
{
    let s = old(store)@;
    let arrived = result_views(results@);
    let all = s.immediate_results + arrived;
    assert(all =~= seq![results@[0]@]);
    assert(all.last() == results@[0]@);
    nothing_expires(s, now, Seq::empty());
    let start = poll_start(s, now);
    assert(start =~= s);
    let effect = model::delivered(start, all.last(), nearest_filter, now);
    let batch = model::delivered_all(start, all, nearest_filter, now);
    one_result(start, results@[0]@, nearest_filter, now);
    let timeouts = choose|timeouts: Seq<Outcome>| #[trigger]
        model::reports_expiry(s, now, timeouts) && polled.outcomes@ == timeouts + batch.outcomes;
    nothing_expires(s, now, timeouts);
    assert(polled.outcomes@ =~= batch.outcomes);
    assert(upload_views(polled.uploads@).len() == polled.uploads@.len());
    let pixels = results@[0].outcome->Ok_0;
    let pid = results@[0].pending_id;
    let id = s.pending[pid].image_id;
    let parent = s.images[id];
    let area = w * h;
    assert(w * h * 4 * 2 == 8 * area && w * h * 4 == 4 * area) by (nonlinear_arith)
        requires
            area == w * h,
    ;
    accounting::charge_nonnegative(w, h, true);
    let blank = (w * h * 4) as nat;
    assert(model::compose_source(parent, compose_base, blank) =~= source@);
    accounting::bytes_of_one(s.images, id, model::id_end());
    assert(model::bytes_of(s.images, id) == parent.bytes);
    let place = model::frame_place(parent.frames, target_slot);
    if place < parent.frames.len() {
        accounting::frame_bytes_of_one(parent.frames, place);
    }
    if polled.uploads@.len() == 1 {
        assert(upload_views(polled.uploads@)[0] == polled.uploads@[0]@);
    }
}

/// A frame whose image is gone or not decoded yet is refused for that, and changes
/// nothing; a payload that could not be decoded is reported as it is, and takes a
/// reserved image away but leaves an image whose frame it was; and a result that
/// nothing waits for is dropped.
#[verifier::rlimit(40)]
pub proof fn failed_payloads_are_reported(
    store: &mut Store,
    results: Vec<DecodeResult>,
    nearest_filter: bool,
    now: u64,
    polled: Polled,
)
    requires
        call_ensures(Store::poll, (store, results, nearest_filter, now), polled),
        old(store).wf(),
        old(store).immediate_results@.len() == 0,
        forall|pid: u32| #[trigger]
            old(store).pending@.contains_key(pid) ==> now <= old(store).pending@[pid].issued_at
                + old(store).pending@[pid].timeout,
        results@.len() == 1,
    ensures
        ({
            let pid = results@[0].pending_id;
            let (s, t) = (old(store)@, final(store)@);
            let request = s.pending[pid];
            let id = request.image_id;
            &&& !s.pending.contains_key(pid) ==> t == s && polled.outcomes@.len() == 0
                && polled.uploads@.len() == 0
            &&& s.pending.contains_key(pid) && results@[0].outcome is Err ==> {
                &&& polled.outcomes@ == seq![
                    (PendingId(pid), Err::<ImageId, DecodeError>(results@[0].outcome->Err_0)),
                ]
                &&& polled.uploads@.len() == 0
                &&& t.pending == s.pending.remove(pid)
                &&& t.total_bytes == s.total_bytes
                &&& t.images == if request.kind is Base {
                    s.images.remove(id)
                } else {
                    s.images
                }
            }
            &&& s.pending.contains_key(pid) && results@[0].outcome is Ok && request.kind is Frame
                && (!s.images.contains_key(id) || s.images[id].base_dims is None) ==> {
                &&& polled.outcomes@ == seq![
                    (PendingId(pid), Err::<ImageId, DecodeError>(DecodeError::ParentNotReady)),
                ]
                &&& polled.uploads@.len() == 0
                &&& t.images == s.images
                &&& t.total_bytes == s.total_bytes
            }
        }),
{
    let s = old(store)@;
    let arrived = result_views(results@);
    let all = s.immediate_results + arrived;
    assert(all =~= seq![results@[0]@]);
    assert(all.last() == results@[0]@);
    nothing_expires(s, now, Seq::empty());
    let start = poll_start(s, now);
    assert(start =~= s);
    let effect = model::delivered(start, all.last(), nearest_filter, now);
    let batch = model::delivered_all(start, all, nearest_filter, now);
    one_result(start, results@[0]@, nearest_filter, now);
    let timeouts = choose|timeouts: Seq<Outcome>| #[trigger]
        model::reports_expiry(s, now, timeouts) && polled.outcomes@ == timeouts + batch.outcomes;
    nothing_expires(s, now, timeouts);
    assert(polled.outcomes@ =~= batch.outcomes);
    assert(upload_views(polled.uploads@).len() == polled.uploads@.len());
}

/// A poll drops exactly the requests that have waited longer than their time, and
/// reports each of them with the milliseconds that it waited. Their images go with
/// them, and the bytes of these images are free again; all others stay.
pub proof fn late_requests_are_dropped(
    store: &mut Store,
    results: Vec<DecodeResult>,
    nearest_filter: bool,
    now: u64,
    polled: Polled,
    pid: u32,
    id: u32,
)
    requires
        call_ensures(Store::poll, (store, results, nearest_filter, now), polled),
        old(store).wf(),
        old(store).immediate_results@.len() == 0,
        results@.len() == 0,
    ensures
        final(store)@.pending.contains_key(pid) <==> old(store)@.pending.contains_key(pid) && now
            - old(store)@.pending[pid].issued_at <= old(store)@.pending[pid].timeout,
        final(store)@.pending.contains_key(pid) ==> final(store)@.pending[pid]
            == old(store)@.pending[pid],
        old(store)@.pending.contains_key(pid) && now - old(store)@.pending[pid].issued_at
            > old(store)@.pending[pid].timeout ==> polled.outcomes@.contains(
            (
                PendingId(pid),
                Err::<ImageId, DecodeError>(
                    DecodeError::TimedOut {
                        elapsed_ms: ((now - old(store)@.pending[pid].issued_at) / 1_000_000) as u64,
                    },
                ),
            ),
        ),
        forall|i: int|
            0 <= i < polled.outcomes@.len() ==> old(store)@.pending.contains_key(
                (#[trigger] polled.outcomes@[i]).0.0,
            ) && !final(store)@.pending.contains_key(polled.outcomes@[i].0.0),
        final(store)@.images.contains_key(id) <==> old(store)@.images.contains_key(id) && forall|
            p: u32,
        | #[trigger]
            old(store)@.pending.contains_key(p) && old(store)@.pending[p].image_id == id ==> now
                - old(store)@.pending[p].issued_at <= old(store)@.pending[p].timeout,
        final(store)@.images.contains_key(id) ==> final(store)@.images[id]
            == old(store)@.images[id],
        polled.uploads@.len() == 0,
{
    let s = old(store)@;
    let all = s.immediate_results + result_views(results@);
    assert(all =~= Seq::<ResultView>::empty());
    let start = poll_start(s, now);
    let batch = model::delivered_all(start, all, nearest_filter, now);
    assert(batch.outcomes =~= Seq::<Outcome>::empty());
    let timeouts = choose|timeouts: Seq<Outcome>| #[trigger]
        model::reports_expiry(s, now, timeouts) && polled.outcomes@ == timeouts + batch.outcomes;
    assert(polled.outcomes@ =~= timeouts);
    assert(upload_views(polled.uploads@).len() == polled.uploads@.len());
    if s.pending.contains_key(pid) && now - s.pending[pid].issued_at > s.pending[pid].timeout {
        assert(model::expired(s, now, pid));
        let i = choose|i: int| 0 <= i < timeouts.len() && (#[trigger] timeouts[i]).0.0 == pid;
        assert(timeouts[i] == model::expiry_report(s, now, pid));
    }
    assert forall|i: int| 0 <= i < polled.outcomes@.len() implies s.pending.contains_key(
        (#[trigger] polled.outcomes@[i]).0.0,
    ) && !final(store)@.pending.contains_key(polled.outcomes@[i].0.0) by {
        assert(model::expired(s, now, timeouts[i].0.0));
    }
    if s.images.contains_key(id) {
        if model::expires(s, now, id) {
            let p = choose|p: u32| #[trigger]
                model::expired(s, now, p) && s.pending[p].image_id == id;
            assert(s.pending.contains_key(p));
        } else {
            assert forall|p: u32| #[trigger]
                s.pending.contains_key(p) && s.pending[p].image_id == id implies now
                - s.pending[p].issued_at <= s.pending[p].timeout by {
                assert(!model::expired(s, now, p));
            }
        }
    }
}

/// Results are taken in one after the other: polling with one more result is
/// polling without it, and then with it alone.
pub proof fn results_are_taken_in_one_by_one(
    s: StoreView,
    results: Seq<ResultView>,
    last: ResultView,
    nearest_filter: bool,
    now: u64,
)
    ensures
        ({
            let head = model::delivered_all(s, results, nearest_filter, now);
            let tail = model::delivered_all(head.store, seq![last], nearest_filter, now);
            let all = model::delivered_all(s, results.push(last), nearest_filter, now);
            &&& all.store == tail.store
            &&& all.outcomes == head.outcomes + tail.outcomes
            &&& all.uploads == head.uploads + tail.uploads
        }),
{
    let head = model::delivered_all(s, results, nearest_filter, now);
    assert(results.push(last).drop_last() =~= results);
    assert(results.push(last).last() == last);
    one_result(head.store, last, nearest_filter, now);
}

/// The texture to show at a moment is that of the frame on display: the base's own,
/// or that of the frame in its place. Without a decode there is none.
pub proof fn texture_on_display_is_the_frames(
    store: &Store,
    id: ImageId,
    now: u64,
    image: Option<&GpuImage>,
    base: Option<&GpuImage>,
    frame: usize,
)
    requires
        call_ensures(Store::peek_at, (store, id, now), image),
        call_ensures(Store::peek, (store, id), base),
        store.images@.contains_key(id.0) ==> call_ensures(
            resolve_current_frame,
            (&store.images@[id.0], now),
            frame,
        ),
    ensures
        !store.images@.contains_key(id.0) ==> image is None && base is None,
        store.images@.contains_key(id.0) ==> ({
            let entry = store.images@[id.0];
            &&& entry.image is None ==> base is None
            &&& entry.image matches Some(g) ==> base == Some(&g)
            &&& frame == 0 ==> image == base
            &&& frame > 0 ==> image == Some(&entry.frames@[frame - 1].image)
        }),
{
    if store.images@.contains_key(id.0) {
        let entry = store.images@[id.0];
        assert(store@.images[id.0] == entry@);
        if frame > 0 {
            assert(entry@.frames[frame - 1] == entry.frames@[frame - 1]@);
        }
    }
}

/// The store's next deadline is the earliest of its images' own.
pub proof fn next_deadline_is_the_earliest(
    store: &Store,
    now: u64,
    deadline: Option<u128>,
    id: u32,
    own: Option<u128>,
)
    requires
        call_ensures(Store::next_frame_deadline, (store, now), deadline),
        store.images@.contains_key(id),
        call_ensures(StoredImage::next_deadline, (&store.images@[id], now), own),
    ensures
        own is Some ==> deadline is Some && deadline->0 <= own->0,
        deadline is None ==> own is None,
{
    assert(store@.images.contains_key(id));
    assert(store@.images[id] == store.images@[id]@);
}

/// A change of playback goes to the image that it names and to no other.
pub proof fn control_reaches_its_image_only(
    store: &mut Store,
    image: &mut StoredImage,
    id: ImageId,
    control: Option<u32>,
    loop_count: Option<u32>,
    make_current: Option<u32>,
    edit_frame: Option<u32>,
    edit_gap_ms: Option<u32>,
    now: u64,
    other: u32,
)
    requires
        call_ensures(
            Store::apply_animation_control,
            (store, id, control, loop_count, make_current, edit_frame, edit_gap_ms, now),
            (),
        ),
        call_ensures(
            StoredImage::control,
            (image, control, loop_count, make_current, edit_frame, edit_gap_ms, now),
            (),
        ),
        old(store)@.images.contains_key(id.0) ==> old(image)@ == old(store)@.images[id.0],
        other != id.0,
    ensures
        final(store)@.images.contains_key(id.0) == old(store)@.images.contains_key(id.0),
        old(store)@.images.contains_key(id.0) ==> final(store)@.images[id.0] == final(image)@,
        final(store)@.images.contains_key(other) == old(store)@.images.contains_key(other),
        old(store)@.images.contains_key(other) ==> final(store)@.images[other]
            == old(store)@.images[other],
        final(store)@.total_bytes == old(store)@.total_bytes,
        final(store)@.pending == old(store)@.pending,
{
}

/// The bytes of all images are those of one and of the rest; no images have none.
pub proof fn total_is_a_sum(images: Map<u32, StoredView>, id: u32)
    ensures
        images.contains_key(id) ==> model::image_bytes(images) == images[id].bytes
            + model::image_bytes(images.remove(id)),
        images == Map::<u32, StoredView>::empty() ==> model::image_bytes(images) == 0,
{
    if images.contains_key(id) {
        accounting::bytes_after_change(images, images.remove(id), id, model::id_end());
    }
    if images == Map::<u32, StoredView>::empty() {
        accounting::bytes_of_nothing(images, model::id_end());
    }
}

/// Whether an image was reserved: it is blank, under the next id, and has replaced
/// what had that id; a request waits for its base; and all else is as it was, but
/// for the payloads that wait.
pub open spec fn image_was_reserved(
    s: StoreView,
    t: StoreView,
    ids: (PendingId, ImageId),
    keep_rgba: bool,
    timeout: u64,
    now: u64,
) -> bool {
    &&& ids.0.0 == s.next_pending && ids.1.0 == s.next_id
    &&& t.next_id == if s.next_id == u32::MAX {
        1
    } else {
        s.next_id + 1
    }
    &&& t.next_pending == if s.next_pending == u32::MAX {
        1
    } else {
        s.next_pending + 1
    }
    &&& t.cap_bytes == s.cap_bytes
    &&& t.total_bytes == s.total_bytes - if s.images.contains_key(s.next_id) {
        s.images[s.next_id].bytes as int
    } else {
        0
    }
    &&& forall|id: u32|
        id != s.next_id ==> t.images.contains_key(id) == #[trigger] s.images.contains_key(id)
            && t.images[id] == s.images[id]
    &&& t.images.contains_key(s.next_id)
    &&& t.images[s.next_id].image is None && t.images[s.next_id].preview is None
    &&& t.images[s.next_id].base_rgba is None && t.images[s.next_id].base_dims is None
    &&& t.images[s.next_id].frames.len() == 0 && t.images[s.next_id].bytes == 0
    &&& t.images[s.next_id].last_used == now && t.images[s.next_id].base_delay_ms == 0
    &&& t.images[s.next_id].animation.play_mode is Stopped
    &&& t.images[s.next_id].animation.current_frame == 0
    &&& t.images[s.next_id].animation.current_frame_started == now
    &&& forall|pid: u32|
        pid != s.next_pending ==> t.pending.contains_key(pid)
            == #[trigger] s.pending.contains_key(pid) && t.pending[pid] == s.pending[pid]
    &&& t.pending.contains_key(s.next_pending)
    &&& t.pending[s.next_pending].image_id == s.next_id
    &&& t.pending[s.next_pending].kind == (PendingKind::Base { keep_rgba })
    &&& t.pending[s.next_pending].issued_at == now
    &&& t.pending[s.next_pending].timeout == timeout
}

/// A payload for an image reserves it and waits behind the other payloads; only
/// where frames may follow are the pixels to be kept.
pub proof fn payload_waits_for_its_image(
    store: &mut Store,
    animated: &mut Store,
    bytes: Vec<u8>,
    max_pixels: u64,
    timeout: u64,
    label: Option<String>,
    now: u64,
    ids: (PendingId, ImageId),
    animated_ids: (PendingId, ImageId),
)
    requires
        call_ensures(Store::request_insert, (store, bytes, max_pixels, timeout, label, now), ids),
        call_ensures(
            Store::request_insert_animatable,
            (animated, bytes, max_pixels, timeout, label, now),
            animated_ids,
        ),
        old(store).wf() && old(animated).wf(),
    ensures
        image_was_reserved(old(store)@, final(store)@, ids, false, timeout, now),
        image_was_reserved(
            old(animated)@,
            final(animated)@,
            animated_ids,
            true,
            timeout,
            now,
        ),
        ({
            let (s, t) = (old(store)@, final(store)@);
            &&& t.immediate_results == s.immediate_results
            &&& t.jobs.len() == s.jobs.len() + 1 && t.jobs.drop_last() == s.jobs
            &&& t.jobs.last().pending_id == ids.0.0 && t.jobs.last().bytes == bytes@
            &&& t.jobs.last().max_pixels == max_pixels
            &&& label is Some ==> t.jobs.last().label == Some((label->0)@)
            &&& label is None ==> t.jobs.last().label is None
        }),
        ({
            let (s, t) = (old(animated)@, final(animated)@);
            &&& t.immediate_results == s.immediate_results
            &&& t.jobs.len() == s.jobs.len() + 1 && t.jobs.drop_last() == s.jobs
            &&& t.jobs.last().pending_id == animated_ids.0.0 && t.jobs.last().bytes == bytes@
            &&& t.jobs.last().max_pixels == max_pixels
            &&& label is Some ==> t.jobs.last().label == Some((label->0)@)
            &&& label is None ==> t.jobs.last().label is None
        }),
{
    let (s, t) = (old(store)@, final(store)@);
    assert(t.jobs.drop_last() =~= s.jobs);
    let (s2, t2) = (old(animated)@, final(animated)@);
    assert(t2.jobs.drop_last() =~= s2.jobs);
    replaced_bytes_are_within_the_total(s);
    replaced_bytes_are_within_the_total(s2);
}

proof fn replaced_bytes_are_within_the_total(s: StoreView)
    requires
        model::store_wf(s),
    ensures
        0 <= model::bytes_of(s.images, s.next_id) <= s.total_bytes,
{
    accounting::bytes_of_one(s.images, s.next_id, model::id_end());
}

/// Pixels for an image reserve it for a minute, and are set aside behind the others
/// for the next poll.
pub proof fn pixels_wait_for_the_next_poll(
    store: &mut Store,
    rgba: Vec<u8>,
    width: u32,
    height: u32,
    label: Option<String>,
    now: u64,
    ids: (PendingId, ImageId),
)
    requires
        call_ensures(
            Store::request_insert_animatable_rgba,
            (store, rgba, width, height, label, now),
            ids,
        ),
        old(store).wf(),
    ensures
        image_was_reserved(old(store)@, final(store)@, ids, true, 60_000_000_000, now),
        ({
            let (s, t) = (old(store)@, final(store)@);
            let last = t.immediate_results.last();
            &&& t.jobs == s.jobs
            &&& t.immediate_results.len() == s.immediate_results.len() + 1
            &&& t.immediate_results.drop_last() == s.immediate_results
            &&& last.pending_id == ids.0.0
            &&& label is Some ==> last.label == Some((label->0)@)
            &&& label is None ==> last.label is None
            &&& last.outcome is Ok && (last.outcome->Ok_0).rgba == rgba@
            &&& (last.outcome->Ok_0).width == width && (last.outcome->Ok_0).height == height
        }),
{
    let (s, t) = (old(store)@, final(store)@);
    assert(t.immediate_results.drop_last() =~= s.immediate_results);
    replaced_bytes_are_within_the_total(s);
}

/// Whether a frame was requested: a request waits for it under the next number, and
/// all else is as it was, but for the payloads that wait. The frame to compose onto
/// counts from 1 in the request, and from 0 in the store.
pub open spec fn frame_was_requested(
    s: StoreView,
    t: StoreView,
    parent: ImageId,
    timeout: u64,
    target_slot: Option<u32>,
    compose_base: Option<u32>,
    delay_ms: u32,
    dst: (u32, u32),
    now: u64,
) -> bool {
    &&& t.images == s.images && t.next_id == s.next_id && t.total_bytes == s.total_bytes
    &&& t.cap_bytes == s.cap_bytes
    &&& t.next_pending == if s.next_pending == u32::MAX {
        1
    } else {
        s.next_pending + 1
    }
    &&& forall|pid: u32|
        pid != s.next_pending ==> t.pending.contains_key(pid)
            == #[trigger] s.pending.contains_key(pid) && t.pending[pid] == s.pending[pid]
    &&& t.pending.contains_key(s.next_pending)
    &&& t.pending[s.next_pending].image_id == parent.0
    &&& t.pending[s.next_pending].issued_at == now
    &&& t.pending[s.next_pending].timeout == timeout
    &&& t.pending[s.next_pending].kind matches PendingKind::Frame {
        dst_x,
        dst_y,
        compose_base: onto,
        delay_ms: delay,
        target_slot: slot,
    } && dst_x == dst.0 && dst_y == dst.1 && delay == delay_ms && slot == target_slot && (
    compose_base is None <==> onto is None) && (compose_base is Some ==> onto->0 == (
    if compose_base->0 <= 1 {
        0
    } else {
        compose_base->0 - 1
    }))
}

/// A payload for a frame waits behind the others if its image is there, and is
/// dropped otherwise.
pub proof fn frame_waits_for_its_image(
    store: &mut Store,
    parent: ImageId,
    bytes: Vec<u8>,
    max_pixels: u64,
    timeout: u64,
    label: Option<String>,
    target_slot: Option<u32>,
    compose_base: Option<u32>,
    delay_ms: u32,
    dst_x: u32,
    dst_y: u32,
    now: u64,
    id: Option<PendingId>,
)
    requires
        call_ensures(
            Store::request_insert_frame,
            (
                store,
                parent,
                bytes,
                max_pixels,
                timeout,
                label,
                target_slot,
                compose_base,
                delay_ms,
                dst_x,
                dst_y,
                now,
            ),
            id,
        ),
    ensures
        ({
            let (s, t) = (old(store)@, final(store)@);
            let there = s.images.contains_key(parent.0);
            &&& id is Some <==> there
            &&& !there ==> t == s
            &&& there ==> {
                &&& (id->0).0 == s.next_pending
                &&& frame_was_requested(
                    s,
                    t,
                    parent,
                    timeout,
                    target_slot,
                    compose_base,
                    delay_ms,
                    (dst_x, dst_y),
                    now,
                )
                &&& t.immediate_results == s.immediate_results
                &&& t.jobs.len() == s.jobs.len() + 1 && t.jobs.drop_last() == s.jobs
                &&& t.jobs.last().pending_id == s.next_pending && t.jobs.last().bytes == bytes@
                &&& t.jobs.last().max_pixels == max_pixels
                &&& label is Some ==> t.jobs.last().label == Some((label->0)@)
                &&& label is None ==> t.jobs.last().label is None
            }
        }),
{
    let (s, t) = (old(store)@, final(store)@);
    if s.images.contains_key(parent.0) {
        assert(t.jobs.drop_last() =~= s.jobs);
    }
}

/// Pixels for a frame are set aside for a minute if its image is there, and dropped
/// otherwise.
pub proof fn frame_pixels_wait_for_the_next_poll(
    store: &mut Store,
    parent: ImageId,
    rgba: Vec<u8>,
    width: u32,
    height: u32,
    label: Option<String>,
    target_slot: Option<u32>,
    compose_base: Option<u32>,
    delay_ms: u32,
    dst_x: u32,
    dst_y: u32,
    now: u64,
    id: Option<PendingId>,
)
    requires
        call_ensures(
            Store::request_insert_frame_rgba,
            (
                store,
                parent,
                rgba,
                width,
                height,
                label,
                target_slot,
                compose_base,
                delay_ms,
                dst_x,
                dst_y,
                now,
            ),
            id,
        ),
    ensures
        ({
            let (s, t) = (old(store)@, final(store)@);
            let there = s.images.contains_key(parent.0);
            let last = t.immediate_results.last();
            &&& id is Some <==> there
            &&& !there ==> t == s
            &&& there ==> {
                &&& (id->0).0 == s.next_pending
                &&& frame_was_requested(
                    s,
                    t,
                    parent,
                    60_000_000_000,
                    target_slot,
                    compose_base,
                    delay_ms,
                    (dst_x, dst_y),
                    now,
                )
                &&& t.jobs == s.jobs
                &&& t.immediate_results.len() == s.immediate_results.len() + 1
                &&& t.immediate_results.drop_last() == s.immediate_results
                &&& last.pending_id == s.next_pending
                &&& label is Some ==> last.label == Some((label->0)@)
                &&& label is None ==> last.label is None
                &&& last.outcome is Ok && (last.outcome->Ok_0).rgba == rgba@
                &&& (last.outcome->Ok_0).width == width && (last.outcome->Ok_0).height == height
            }
        }),
{
    let (s, t) = (old(store)@, final(store)@);
    if s.images.contains_key(parent.0) {
        assert(t.immediate_results.drop_last() =~= s.immediate_results);
    }
}

/// The worker gets the payloads in their order, each once; nothing else changes.
pub proof fn worker_gets_each_payload_once(store: &mut Store, jobs: Vec<DecodeJob>, i: int)
    requires
        call_ensures(Store::take_jobs, (store,), jobs),
    ensures
        jobs@.len() == old(store)@.jobs.len(),
        0 <= i < jobs@.len() ==> {
            &&& jobs@[i].pending_id == old(store)@.jobs[i].pending_id
            &&& jobs@[i].bytes@ == old(store)@.jobs[i].bytes
            &&& jobs@[i].max_pixels == old(store)@.jobs[i].max_pixels
            &&& jobs@[i].label is Some <==> old(store)@.jobs[i].label is Some
            &&& jobs@[i].label is Some ==> old(store)@.jobs[i].label == Some((jobs@[i].label->0)@)
        },
        final(store)@.jobs.len() == 0,
        final(store)@.images == old(store)@.images,
        final(store)@.pending == old(store)@.pending,
        final(store)@.immediate_results == old(store)@.immediate_results,
        final(store)@.total_bytes == old(store)@.total_bytes,
        final(store)@.cap_bytes == old(store)@.cap_bytes,
        final(store)@.next_id == old(store)@.next_id,
        final(store)@.next_pending == old(store)@.next_pending,
{
    assert(job_views(jobs@).len() == jobs@.len());
    if 0 <= i < jobs@.len() {
        assert(job_views(jobs@)[i] == jobs@[i]@);
    }
}

/// A job's result belongs to its request and has its label, and is what decoding its
/// payload gives.
pub proof fn job_is_decoded(
    job: DecodeJob,
    result: DecodeResult,
    bytes: &[u8],
    header: Option<(u32, u32)>,
    sound: bool,
)
    requires
        call_ensures(run_decode_job, (job,), result),
        bytes@ == job.bytes@,
        call_ensures(decode::peek_dimensions, (bytes,), header),
        call_ensures(decode::has_sound_palette, (bytes,), sound),
    ensures
        result.pending_id == job.pending_id,
        result.label is Some <==> job.label is Some,
        result.label is Some ==> (result.label->0)@ == (job.label->0)@,
        ({
            let decoded = decode::decoded_image(job.bytes@);
            let large = header is Some && (header->0).0 * (header->0).1 > job.max_pixels;
            let bad_table = header is Some && !sound;
            &&& large ==> result.outcome is Err && result.outcome->Err_0 is TooLarge
            &&& !large && (bad_table || decoded is None) ==> result.outcome is Err
                && result.outcome->Err_0 is Decode
            &&& !large && !bad_table && decoded is Some ==> ({
                let (rgba, w, h) = decoded->0;
                &&& w * h > job.max_pixels ==> result.outcome is Err
                    && result.outcome->Err_0 is TooLarge
                &&& w * h <= job.max_pixels ==> result.outcome is Ok && (
                result.outcome->Ok_0).rgba@ == rgba && (result.outcome->Ok_0).width == w && (
                result.outcome->Ok_0).height == h
            })
        }),
{
    let image = choose|image: Result<(Vec<u8>, u32, u32), DecodeError>| #[trigger]
        decode::decode_outcome(
            decode::header_dimensions(job@.bytes),
            decode::palette_sound(job@.bytes),
            decode::decoded_image(job@.bytes),
            job@.max_pixels,
            image,
        ) && result@.outcome == match image {
            Ok((rgba, width, height)) => Ok::<model::PixelsView, DecodeError>(
                model::PixelsView { rgba: rgba@, width, height },
            ),
            Err(e) => Err(e),
        };
    assert(job@.bytes == job.bytes@);
}

/// A sweep keeps exactly the images to be kept, as they are, and charges for no
/// others.
pub proof fn sweep_keeps_what_it_is_told(store: &mut Store, keep: &HashSet<u32>, id: u32)
    requires
        call_ensures(Store::retain, (store, keep), ()),
        old(store).wf(),
    ensures
        final(store)@.images.contains_key(id) <==> old(store)@.images.contains_key(id)
            && keep@.contains(id),
        final(store)@.images.contains_key(id) ==> final(store)@.images[id]
            == old(store)@.images[id],
        final(store)@.total_bytes == model::image_bytes(final(store)@.images),
        final(store)@.pending == old(store)@.pending,
        final(store)@.jobs == old(store)@.jobs,
        final(store)@.immediate_results == old(store)@.immediate_results,
        final(store)@.cap_bytes == old(store)@.cap_bytes,
        final(store)@.next_id == old(store)@.next_id,
        final(store)@.next_pending == old(store)@.next_pending,
{
}

/// An image is found under its id: its base texture, its preview, its frames and its
/// playback; it is pending while it has no texture. Getting it marks it as used and
/// changes nothing else.
pub proof fn image_is_found_under_its_id(
    store: &mut Store,
    before: &Store,
    id: ImageId,
    now: u64,
    image: Option<GpuImage>,
    frames: usize,
    state: Option<AnimationState>,
    preview: Option<&Preview>,
    pending: bool,
    other: u32,
)
    requires
        *before == *old(store),
        call_ensures(Store::get, (store, id, now), image),
        call_ensures(Store::frame_count, (before, id), frames),
        call_ensures(Store::animation_state, (before, id), state),
        call_ensures(Store::preview, (before, id), preview),
        call_ensures(Store::is_pending, (before, id), pending),
    ensures
        ({
            let there = before.images@.contains_key(id.0);
            let entry = before.images@[id.0];
            let (s, t) = (before@, final(store)@);
            &&& !there ==> image is None && frames == 0 && state is None && preview is None
                && !pending && t == s
            &&& there ==> {
                &&& image == entry.image && frames == entry.frames@.len()
                &&& state == Some(entry.animation)
                &&& preview is Some <==> entry.preview is Some
                &&& preview is Some ==> (preview->0)@ == (entry.preview->0)@
                &&& pending <==> entry.image is None
                &&& t.images.contains_key(id.0)
                &&& t.images[id.0].last_used == now
                &&& t.images[id.0] == (StoredView {
                    last_used: t.images[id.0].last_used,
                    ..s.images[id.0]
                })
            }
            &&& other != id.0 ==> t.images.contains_key(other) == s.images.contains_key(other)
                && t.images[other] == s.images[other]
            &&& t.pending == s.pending && t.jobs == s.jobs
            &&& t.immediate_results == s.immediate_results
            &&& t.total_bytes == s.total_bytes && t.cap_bytes == s.cap_bytes
            &&& t.next_id == s.next_id && t.next_pending == s.next_pending
        }),
{
    if before.images@.contains_key(id.0) {
        assert(before@.images[id.0] == before.images@[id.0]@);
    }
}

/// A store starts empty, with the first ids and the cap that it is given. It counts
/// its images and requests, and the bytes of its images.
pub proof fn store_counts_what_it_holds(
    cap: usize,
    fresh: Store,
    store: &Store,
    images: usize,
    empty: bool,
    requests: usize,
    bytes: usize,
    cap_bytes: usize,
)
    requires
        call_ensures(Store::new, (cap,), fresh),
        call_ensures(Store::len, (store,), images),
        call_ensures(Store::is_empty, (store,), empty),
        call_ensures(Store::pending_count, (store,), requests),
        call_ensures(Store::bytes, (store,), bytes),
        call_ensures(Store::cap_bytes, (store,), cap_bytes),
        store.wf(),
    ensures
        images == store.images@.len() && (empty <==> images == 0),
        requests == store.pending@.len(),
        bytes == model::image_bytes(store@.images),
        cap_bytes == store.cap_bytes && bytes <= cap_bytes,
        fresh@.images == Map::<u32, StoredView>::empty(),
        fresh@.pending == Map::<u32, PendingRequest>::empty(),
        fresh@.jobs.len() == 0 && fresh@.immediate_results.len() == 0,
        fresh@.total_bytes == 0 && fresh@.cap_bytes == cap,
        fresh@.next_id == 1 && fresh@.next_pending == 1,
{
    assert(store@.images.dom() =~= store.images@.dom());
}

/// A new image can be reserved unless a base is awaited under the next id; a result
/// can be taken in unless it is a base whose image is gone and that would fit.
pub proof fn ids_are_free_unless_awaited(
    store: &Store,
    free: bool,
    result: &DecodeResult,
    fits: bool,
    pid: u32,
) -> (awaited: u32)
    requires
        call_ensures(Store::can_reserve, (store,), free),
        call_ensures(Store::can_deliver, (store, result), fits),
    ensures
        store.pending@.contains_key(pid) && store.pending@[pid].kind is Base
            && store.pending@[pid].image_id == store.next_id ==> !free,
        !free ==> store.pending@.contains_key(awaited) && store.pending@[awaited].kind is Base
            && store.pending@[awaited].image_id == store.next_id,
        ({
            let request = store.pending@[result.pending_id];
            let base = store.pending@.contains_key(result.pending_id) && request.kind is Base
                && result.outcome is Ok;
            let pixels = result.outcome->Ok_0;
            let cost = 4 * (pixels.width * pixels.height) * if request.kind->keep_rgba {
                2int
            } else {
                1
            };
            !fits <==> base && !store.images@.contains_key(request.image_id) && store.total_bytes
                + cost <= store.cap_bytes
        }),
{
    assert(store@.images.dom() =~= store.images@.dom());
    if result.outcome is Ok {
        let pixels = result.outcome->Ok_0;
        let (w, h) = (pixels.width as int, pixels.height as int);
        assert(w * h * 4 == 4 * (w * h)) by (nonlinear_arith);
    }
    if free {
        0
    } else {
        choose|p: u32| #[trigger]
            store@.pending.contains_key(p) && store@.pending[p].kind is Base
                && store@.pending[p].image_id == store.next_id
    }
}

/// A deadline of the store is that of one of its images.
pub proof fn deadline_is_that_of_an_image(store: &Store, now: u64, deadline: Option<u128>) -> (id:
    u32)
    requires
        call_ensures(Store::next_frame_deadline, (store, now), deadline),
    ensures
        deadline is Some ==> store.images@.contains_key(id) && forall|own: Option<u128>|
            #[trigger] call_ensures(StoredImage::next_deadline, (&store.images@[id], now), own)
                ==> own == deadline,
{
    if deadline is Some {
        let d = deadline->0;
        let id = choose|id: u32| #[trigger]
            store@.images.contains_key(id) && entry::animating(store@.images[id], now) && d
                == entry::wake_time(store@.images[id], now);
        assert(store@.images[id] == store.images@[id]@);
        id
    } else {
        0
    }
}

/// A poll changes no ids, no cap and no payload that waits for the worker, leaves
/// nothing set aside, and orders its textures with the filter that it is told. A
/// texture has the label of the result that it comes from.
pub proof fn poll_leaves_the_rest(
    store: &mut Store,
    results: Vec<DecodeResult>,
    nearest_filter: bool,
    now: u64,
    polled: Polled,
)
    requires
        call_ensures(Store::poll, (store, results, nearest_filter, now), polled),
        old(store)@.immediate_results.len() == 0,
        results@.len() == 1,
    ensures
        final(store)@.next_id == old(store)@.next_id,
        final(store)@.next_pending == old(store)@.next_pending,
        final(store)@.cap_bytes == old(store)@.cap_bytes,
        final(store)@.jobs == old(store)@.jobs,
        final(store)@.immediate_results.len() == 0,
        polled.uploads@.len() <= 1,
        polled.uploads@.len() == 1 ==> {
            &&& polled.uploads@[0].nearest_filter == nearest_filter
            &&& polled.uploads@[0].label is Some <==> results@[0].label is Some
            &&& results@[0].label is Some ==> (polled.uploads@[0].label->0)@ == (
            results@[0].label->0)@
        },
{
    let s = old(store)@;
    let all = s.immediate_results + result_views(results@);
    assert(all =~= seq![results@[0]@]);
    let start = poll_start(s, now);
    one_result(start, results@[0]@, nearest_filter, now);
    assert(upload_views(polled.uploads@).len() == polled.uploads@.len());
    if polled.uploads@.len() == 1 {
        assert(upload_views(polled.uploads@)[0] == polled.uploads@[0]@);
    }
}

/// What was set aside is taken in before what the worker finished.
pub proof fn set_aside_results_come_first(
    store: &mut Store,
    results: Vec<DecodeResult>,
    polled: Polled,
    bare: &mut Store,
    all: Vec<DecodeResult>,
    bare_polled: Polled,
    nearest_filter: bool,
    now: u64,
    i: int,
)
    requires
        call_ensures(Store::poll, (store, results, nearest_filter, now), polled),
        call_ensures(Store::poll, (bare, all, nearest_filter, now), bare_polled),
        old(store).wf(),
        old(bare)@ == (StoreView { immediate_results: Seq::empty(), ..old(store)@ }),
        all@.len() == old(store).immediate_results@.len() + results@.len(),
        forall|k: int|
            0 <= k < old(store).immediate_results@.len() ==> (#[trigger] all@[k])@ == old(
                store,
            ).immediate_results@[k]@,
        forall|k: int|
            0 <= k < results@.len() ==> all@[old(store).immediate_results@.len() + k]@ == (
            #[trigger] results@[k])@,
        forall|pid: u32| #[trigger]
            old(store).pending@.contains_key(pid) ==> now <= old(store).pending@[pid].issued_at
                + old(store).pending@[pid].timeout,
    ensures
        final(store)@ == final(bare)@,
        polled.outcomes@ == bare_polled.outcomes@,
        polled.uploads@.len() == bare_polled.uploads@.len(),
        0 <= i < polled.uploads@.len() ==> polled.uploads@[i].image == bare_polled.uploads@[i].image
            && polled.uploads@[i].rgba@ == bare_polled.uploads@[i].rgba@,
{
    let (s, b) = (old(store)@, old(bare)@);
    let first = s.immediate_results + result_views(results@);
    let second = b.immediate_results + result_views(all@);
    assert(first.len() == second.len());
    assert forall|k: int| 0 <= k < first.len() implies first[k] == second[k] by {
        let n = s.immediate_results.len() as int;
        assert(second[k] == all@[k]@);
        if k < n {
            assert(s.immediate_results[k] == old(store).immediate_results@[k]@);
        } else {
            assert(first[k] == results@[k - n]@);
            assert(all@[n + (k - n)]@ == results@[k - n]@);
        }
    }
    assert(first =~= second);
    assert(b.pending == s.pending && b.images == s.images);
    accounting::dropping_keeps_wf(s, b);
    let batch = model::delivered_all(poll_start(s, now), first, nearest_filter, now);
    let bare_batch = model::delivered_all(poll_start(b, now), second, nearest_filter, now);
    nothing_expires(s, now, Seq::empty());
    nothing_expires(b, now, Seq::empty());
    assert(poll_start(s, now) =~= poll_start(b, now));
    let timeouts = choose|timeouts: Seq<Outcome>| #[trigger]
        model::reports_expiry(s, now, timeouts) && polled.outcomes@ == timeouts + batch.outcomes;
    nothing_expires(s, now, timeouts);
    let bare_timeouts = choose|timeouts: Seq<Outcome>| #[trigger]
        model::reports_expiry(b, now, timeouts) && bare_polled.outcomes@ == timeouts
            + bare_batch.outcomes;
    nothing_expires(b, now, bare_timeouts);
    assert(polled.outcomes@ =~= bare_polled.outcomes@);
    assert(upload_views(polled.uploads@).len() == polled.uploads@.len());
    assert(upload_views(bare_polled.uploads@).len() == bare_polled.uploads@.len());
    if 0 <= i < polled.uploads@.len() {
        assert(upload_views(polled.uploads@)[i] == polled.uploads@[i]@);
        assert(upload_views(bare_polled.uploads@)[i] == bare_polled.uploads@[i]@);
    }
}

/// Requests that waited too long are dropped before any result is taken in: a poll
/// with results is a poll without, and then one with them.
pub proof fn late_requests_go_before_results(
    store: &mut Store,
    results: Vec<DecodeResult>,
    polled: Polled,
    expiring: &mut Store,
    nothing: Vec<DecodeResult>,
    expired: Polled,
    rest: &mut Store,
    rest_polled: Polled,
    nearest_filter: bool,
    now: u64,
    i: int,
)
    requires
        call_ensures(Store::poll, (store, results, nearest_filter, now), polled),
        call_ensures(Store::poll, (expiring, nothing, nearest_filter, now), expired),
        call_ensures(Store::poll, (rest, results, nearest_filter, now), rest_polled),
        old(store).wf(),
        old(store).immediate_results@.len() == 0,
        nothing@.len() == 0,
        old(expiring)@ == old(store)@,
        old(rest)@ == final(expiring)@,
    ensures
        final(store)@ == final(rest)@,
        polled.uploads@.len() == rest_polled.uploads@.len(),
        0 <= i < polled.uploads@.len() ==> polled.uploads@[i].image == rest_polled.uploads@[i].image
            && polled.uploads@[i].rgba@ == rest_polled.uploads@[i].rgba@,
        polled.outcomes@.len() >= rest_polled.outcomes@.len(),
        polled.outcomes@.skip(polled.outcomes@.len() - rest_polled.outcomes@.len())
            == rest_polled.outcomes@,
{
    let s = old(store)@;
    let all = s.immediate_results + result_views(results@);
    let start = poll_start(s, now);
    let t = final(expiring)@;
    assert(old(expiring)@.immediate_results + result_views(nothing@) =~= Seq::<ResultView>::empty());
    assert(t == start);
    assert forall|pid: u32| #[trigger] t.pending.contains_key(pid) implies now
        <= t.pending[pid].issued_at + t.pending[pid].timeout by {
        assert(!model::expired(s, now, pid));
    }
    accounting::expiry_keeps_wf(s, now);
    accounting::dropping_keeps_wf(model::after_expiry(s, now), t);
    nothing_expires(t, now, Seq::empty());
    assert(poll_start(t, now) =~= start);
    assert(t.immediate_results + result_views(results@) =~= all);
    let batch = model::delivered_all(start, all, nearest_filter, now);
    let timeouts = choose|timeouts: Seq<Outcome>| #[trigger]
        model::reports_expiry(s, now, timeouts) && polled.outcomes@ == timeouts + batch.outcomes;
    let none = choose|timeouts: Seq<Outcome>| #[trigger]
        model::reports_expiry(t, now, timeouts) && rest_polled.outcomes@ == timeouts
            + batch.outcomes;
    nothing_expires(t, now, none);
    assert(rest_polled.outcomes@ =~= batch.outcomes);
    assert(polled.outcomes@.skip(timeouts.len() as int) =~= batch.outcomes);
    assert(upload_views(polled.uploads@).len() == polled.uploads@.len());
    assert(upload_views(rest_polled.uploads@).len() == rest_polled.uploads@.len());
    if 0 <= i < polled.uploads@.len() {
        assert(upload_views(polled.uploads@)[i] == polled.uploads@[i]@);
        assert(upload_views(rest_polled.uploads@)[i] == rest_polled.uploads@[i]@);
    }
}

/// A poll can take in any results when every base that is awaited in time has its
/// image, and no request for that image is late.
pub proof fn poll_is_open_when_bases_are_reserved(store: &Store, now: u64, b: bool, pid: u32) -> (
    found: u32)
    requires
        call_ensures(Store::can_poll, (store, now), b),
    ensures
        ({
            let s = store@;
            let on_time = |p: u32| (s.pending.contains_key(p) && now <= s.pending[p].issued_at
                + s.pending[p].timeout);
            let kept = |id: u32|
                (s.images.contains_key(id) && forall|p: u32| #[trigger]
                    s.pending.contains_key(p) && s.pending[p].image_id == id ==> now
                        <= s.pending[p].issued_at + s.pending[p].timeout);
            &&& b && on_time(pid) && s.pending[pid].kind is Base ==> kept(s.pending[pid].image_id)
            &&& !b ==> on_time(found) && s.pending[found].kind is Base && !kept(
                s.pending[found].image_id,
            )
        }),
{
    let s = store@;
    let start = poll_start(s, now);
    assert forall|p: u32| #[trigger] s.pending.contains_key(p) implies start.pending.contains_key(p)
        == (now <= s.pending[p].issued_at + s.pending[p].timeout) by {
        assert(model::expired(s, now, p) || !model::expired(s, now, p));
    }
    assert forall|id: u32| #[trigger] start.images.contains_key(id) <==> s.images.contains_key(id)
        && forall|p: u32| #[trigger]
        s.pending.contains_key(p) && s.pending[p].image_id == id ==> now <= s.pending[p].issued_at
            + s.pending[p].timeout by {
        if s.images.contains_key(id) {
            if model::expires(s, now, id) {
                let p = choose|p: u32| #[trigger]
                    model::expired(s, now, p) && s.pending[p].image_id == id;
                assert(s.pending.contains_key(p));
            } else {
                assert forall|p: u32| #[trigger]
                    s.pending.contains_key(p) && s.pending[p].image_id == id implies now
                    <= s.pending[p].issued_at + s.pending[p].timeout by {
                    assert(!model::expired(s, now, p));
                }
            }
        }
    }
    if b {
        if s.pending.contains_key(pid) && now <= s.pending[pid].issued_at + s.pending[pid].timeout
            && s.pending[pid].kind is Base {
            assert(start.pending.contains_key(pid));
            assert(start.images.contains_key(s.pending[pid].image_id));
        }
        0
    } else {
        let p = choose|p: u32| #[trigger]
            start.pending.contains_key(p) && start.pending[p].kind is Base
                && !start.images.contains_key(start.pending[p].image_id);
        assert(s.pending.contains_key(p));
        p
    }
}

/// Setting the playback of an image sets that and nothing else.
pub proof fn playback_is_set_as_a_whole(
    store: &mut Store,
    id: ImageId,
    state: AnimationState,
    other: u32,
)
    requires
        call_ensures(Store::force_animation_state_for_test, (store, id, state), ()),
    ensures
        final(store)@.images.dom() == old(store)@.images.dom(),
        old(store)@.images.contains_key(id.0) ==> final(store)@.images[id.0] == (StoredView {
            animation: state,
            ..old(store)@.images[id.0]
        }),
        other != id.0 ==> final(store)@.images[other] == old(store)@.images[other],
        final(store)@.pending == old(store)@.pending,
        final(store)@.total_bytes == old(store)@.total_bytes,
{
    assert(final(store)@.images.dom() =~= old(store)@.images.dom());
}

} // verus!
