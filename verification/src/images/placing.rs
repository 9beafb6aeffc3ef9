//! From payloads and finished decodes to placements in the grid.
//!
//! A payload of a terminal program becomes a request to the store; its image is
//! placed in the grid at once, or once its size is known. What is to be done to
//! the grid is handed out as orders.

use crate::images::accounting;
use crate::images::decode::DecodeError;
use crate::images::entry;
use crate::images::laws;
use crate::images::model;
use crate::images::model::{
    DecodeResult, ImageId, Outcome, PendingId, PendingKind, PendingRequest, StoreView, Upload,
};
use crate::images::store;
use crate::images::store::{Polled, Store, IMMEDIATE_TIMEOUT};
use std::collections::{HashMap, HashSet};
use vstd::prelude::*;

verus! {

broadcast use vstd::std_specs::hash::group_hash_axioms;

/// A change of an image's playback that a program asks for.
#[derive(Clone, Copy, Debug, PartialEq, Eq, Structural)]
pub struct ControlSpec {
    pub control: Option<u32>,
    pub loop_count: Option<u32>,
    pub make_current: Option<u32>,
    pub edit_frame: Option<u32>,
    pub edit_gap_ms: Option<u32>,
}

/// Where a frame goes and what it is composed onto.
#[derive(Clone, Copy, Debug, PartialEq, Eq, Structural)]
pub struct FrameSpec {
    pub target_slot: Option<u32>,
    pub compose_base: Option<u32>,
    pub gap_ms: u32,
    pub dst_x: u32,
    pub dst_y: u32,
}

/// A payload that a terminal program sent.
#[derive(Debug)]
pub struct ImageUpload {
    pub bytes: Vec<u8>,
    pub label: Option<String>,
    /// The size of pixels that need no decoding.
    pub raw_rgba_dims: Option<(u32, u32)>,
    /// What the program calls the image.
    pub kitty_image_id: Option<u32>,
    pub kitty_placement_id: Option<u32>,
    pub animation_control: Option<ControlSpec>,
    pub animation_frame: Option<FrameSpec>,
    /// Whether the image is shown as soon as it is there.
    pub display_immediately: bool,
    pub cell_anchor: (isize, isize),
    pub cell_extent: (u16, u16),
    pub z_index: i32,
    pub pixel_offset: (u32, u32),
    pub src_rect: Option<(u32, u32, u32, u32)>,
}

/// Where an image goes once it is decoded. One that is placed already names
/// its image.
#[derive(Clone, Copy, Debug, PartialEq, Eq, Structural)]
pub struct PendingImagePlacement {
    pub request: PendingId,
    pub row: isize,
    pub col: isize,
    pub preplaced_image_id: Option<ImageId>,
}

/// An image in the grid.
#[derive(Clone, Copy, Debug, PartialEq, Eq)]
pub struct Placement {
    pub image_id: ImageId,
    pub row: isize,
    pub col: isize,
    pub rows: u16,
    pub cols: u16,
    pub z_index: i32,
    pub pixel_offset: (u32, u32),
    pub src_rect: Option<(u32, u32, u32, u32)>,
    pub kitty_image_id: Option<u32>,
    pub kitty_placement_id: Option<u32>,
}

/// What is to be done to the grid.
#[derive(Clone, Copy, Debug, PartialEq, Eq)]
pub enum GridOrder {
    Place(Placement),
    /// Every placement of this image goes.
    Remove(ImageId),
}

/// The images of a tab: the store, the placements that wait for a decode, and
/// the names that programs gave to images.
#[derive(Debug)]
pub struct TabImages {
    pub store: Store,
    pub pending: Vec<PendingImagePlacement>,
    pub kitty: HashMap<u32, u32>,
}

/// What [`TabImages`] holds.
#[verifier::ext_equal]
pub struct TabView {
    pub store: StoreView,
    pub pending: Seq<PendingImagePlacement>,
    pub kitty: Map<u32, u32>,
}

impl View for TabImages {
    type V = TabView;

    open spec fn view(&self) -> TabView {
        TabView { store: self.store@, pending: self.pending@, kitty: self.kitty@ }
    }
}

/// Whether a finished decode creates no placement: the image is placed
/// already, or the program that named it places it itself.
pub fn suppress_deferred_placement(display_immediately: bool, kitty_image_id: Option<u32>) -> (b:
    bool)
    ensures
        b == (display_immediately || kitty_image_id is Some),
{
    display_immediately || kitty_image_id.is_some()
}

/// Whether the render loop keeps ticking: a placement waits for its decode,
/// results came in, or the store has requests in flight that no placement
/// waits for.
pub fn should_rearm_image_poll(
    pending_placements_empty: bool,
    results_empty: bool,
    store_pending: usize,
) -> (b: bool)
    ensures
        b == (!pending_placements_empty || !results_empty || store_pending > 0),
{
    !pending_placements_empty || !results_empty || store_pending > 0
}

/// Whether a payload is for a new image.
pub open spec fn is_new_image(up: ImageUpload) -> bool {
    up.animation_control is None && up.animation_frame is None
}

/// Whether a payload can be taken in: one for a new image needs an id.
pub open spec fn acceptable(s: TabView, up: ImageUpload) -> bool {
    is_new_image(up) ==> !model::awaited(s.store, s.store.next_id)
}

/// The image that a payload names.
pub open spec fn named_image(s: TabView, up: ImageUpload) -> Option<ImageId> {
    match up.kitty_image_id {
        Some(client) => if s.kitty.contains_key(client) {
            Some(ImageId(s.kitty[client]))
        } else {
            None
        },
        None => None,
    }
}

/// The store after a playback change.
pub open spec fn store_controlled(
    s: StoreView,
    id: ImageId,
    control: ControlSpec,
    now: u64,
) -> StoreView {
    if s.images.contains_key(id.0) {
        StoreView {
            images: s.images.insert(
                id.0,
                entry::controlled(
                    s.images[id.0],
                    control.control,
                    control.loop_count,
                    control.make_current,
                    control.edit_frame,
                    control.edit_gap_ms,
                    now,
                ),
            ),
            ..s
        }
    } else {
        s
    }
}

/// The store after a frame of an image was requested.
pub open spec fn store_with_frame(
    s: StoreView,
    parent: ImageId,
    up: ImageUpload,
    spec: FrameSpec,
    max_pixels: u64,
    timeout: u64,
    now: u64,
) -> StoreView {
    if !s.images.contains_key(parent.0) {
        s
    } else {
        let request = store::frame_request(
            parent,
            if up.raw_rgba_dims is Some {
                IMMEDIATE_TIMEOUT
            } else {
                timeout
            },
            spec.target_slot,
            spec.compose_base,
            spec.gap_ms,
            spec.dst_x,
            spec.dst_y,
            now,
        );
        let t = model::with_pending(s, request);
        match up.raw_rgba_dims {
            Some((w, h)) => store::with_immediate(
                t,
                s.next_pending,
                up.bytes@,
                w,
                h,
                model::label_view(up.label),
            ),
            None => store::with_job(
                t,
                s.next_pending,
                up.bytes@,
                max_pixels,
                model::label_view(up.label),
            ),
        }
    }
}

/// The store after a new image was requested. Pixels that need no decoding
/// and images that a program named may receive frames.
pub open spec fn store_with_image(
    s: StoreView,
    up: ImageUpload,
    max_pixels: u64,
    timeout: u64,
    now: u64,
) -> StoreView {
    match up.raw_rgba_dims {
        Some((w, h)) => {
            let t = model::with_pending(
                model::with_reservation(s, now),
                PendingRequest {
                    image_id: s.next_id,
                    kind: PendingKind::Base { keep_rgba: true },
                    issued_at: now,
                    timeout: IMMEDIATE_TIMEOUT,
                },
            );
            store::with_immediate(t, s.next_pending, up.bytes@, w, h, model::label_view(up.label))
        },
        None => store::insert_requested(
            s,
            up.bytes@,
            max_pixels,
            timeout,
            model::label_view(up.label),
            up.kitty_image_id is Some,
            now,
        ),
    }
}

/// The placement that a payload asks for.
pub open spec fn placement_of(up: ImageUpload, id: ImageId) -> Placement {
    let (row, col) = up.cell_anchor;
    let (rows, cols) = up.cell_extent;
    Placement {
        image_id: id,
        row,
        col,
        rows,
        cols,
        z_index: up.z_index,
        pixel_offset: up.pixel_offset,
        src_rect: up.src_rect,
        kitty_image_id: up.kitty_image_id,
        kitty_placement_id: up.kitty_placement_id,
    }
}

/// The wait of a payload's image for its decode.
pub open spec fn wait_of(up: ImageUpload, request: PendingId, id: ImageId) -> PendingImagePlacement {
    let (row, col) = up.cell_anchor;
    PendingImagePlacement {
        request,
        row,
        col,
        preplaced_image_id: if up.display_immediately || up.kitty_image_id is Some {
            Some(id)
        } else {
            None
        },
    }
}

/// The tab after a payload was taken in. A playback change or a frame of an
/// image that nobody named is dropped.
pub open spec fn taken(
    s: TabView,
    up: ImageUpload,
    max_pixels: u64,
    timeout: u64,
    now: u64,
) -> TabView {
    if up.animation_control is Some {
        match named_image(s, up) {
            Some(id) => TabView {
                store: store_controlled(s.store, id, up.animation_control->0, now),
                ..s
            },
            None => s,
        }
    } else if up.animation_frame is Some {
        match named_image(s, up) {
            Some(id) => TabView {
                store: store_with_frame(
                    s.store,
                    id,
                    up,
                    up.animation_frame->0,
                    max_pixels,
                    timeout,
                    now,
                ),
                ..s
            },
            None => s,
        }
    } else {
        let id = ImageId(s.store.next_id);
        TabView {
            store: store_with_image(s.store, up, max_pixels, timeout, now),
            pending: s.pending.push(wait_of(up, PendingId(s.store.next_pending), id)),
            kitty: match up.kitty_image_id {
                Some(client) => s.kitty.insert(client, id.0),
                None => s.kitty,
            },
        }
    }
}

/// What taking a payload in orders of the grid.
pub open spec fn orders_of(s: TabView, up: ImageUpload) -> Seq<GridOrder> {
    if is_new_image(up) && up.display_immediately {
        seq![GridOrder::Place(placement_of(up, ImageId(s.store.next_id)))]
    } else {
        Seq::empty()
    }
}

/// What a run of payloads leaves behind.
pub struct Intake {
    pub tab: TabView,
    pub orders: Seq<GridOrder>,
}

/// The payloads are taken in one after the other.
pub open spec fn taken_all(
    s: TabView,
    uploads: Seq<ImageUpload>,
    max_pixels: u64,
    timeout: u64,
    now: u64,
) -> Intake
    decreases uploads.len(),
{
    if uploads.len() == 0 {
        Intake { tab: s, orders: Seq::empty() }
    } else {
        let before = taken_all(s, uploads.drop_last(), max_pixels, timeout, now);
        Intake {
            tab: taken(before.tab, uploads.last(), max_pixels, timeout, now),
            orders: before.orders + orders_of(before.tab, uploads.last()),
        }
    }
}

/// What taking payloads in calls for.
#[derive(Debug)]
pub struct Drained {
    /// How many payloads were taken in.
    pub taken: usize,
    pub orders: Vec<GridOrder>,
    pub redraw: bool,
}

impl TabImages {
    /// The invariant.
    pub open spec fn wf(&self) -> bool {
        self.store.wf()
    }

    /// A tab without images, with room for `cap_bytes` bytes of them.
    pub fn new(cap_bytes: usize) -> (tab: TabImages)
        ensures
            tab.wf(),
            tab.store@ == (StoreView {
                next_id: 1,
                images: Map::empty(),
                total_bytes: 0,
                cap_bytes,
                next_pending: 1,
                pending: Map::empty(),
                jobs: Seq::empty(),
                immediate_results: Seq::empty(),
            }),
            tab.pending@.len() == 0,
            tab.kitty@ == Map::<u32, u32>::empty(),
    {
        TabImages { store: Store::new(cap_bytes), pending: Vec::new(), kitty: HashMap::new() }
    }

    /// The image that a program's name stands for.
    fn lookup(&self, client: Option<u32>) -> (id: Option<ImageId>)
        ensures
            id == match client {
                Some(c) => if self@.kitty.contains_key(c) {
                    Some(ImageId(self@.kitty[c]))
                } else {
                    None
                },
                None => None,
            },
    {
        match client {
            Some(c) => match self.kitty.get(&c) {
                Some(id) => Some(ImageId(*id)),
                None => None,
            },
            None => None,
        }
    }

    /// Requests an image that is to be placed at a cell once its size is known.
    pub fn load_at_cell(
        &mut self,
        bytes: Vec<u8>,
        max_pixels: u64,
        timeout: u64,
        label: String,
        row: isize,
        col: isize,
        now: u64,
    )
        requires
            old(self).wf(),
            !model::awaited(old(self)@.store, old(self)@.store.next_id),
        ensures
            final(self).wf(),
            final(self)@ == (TabView {
                store: store::insert_requested(
                    old(self)@.store,
                    bytes@,
                    max_pixels,
                    timeout,
                    Some(label@),
                    false,
                    now,
                ),
                pending: old(self)@.pending.push(
                    PendingImagePlacement {
                        request: PendingId(old(self)@.store.next_pending),
                        row,
                        col,
                        preplaced_image_id: None,
                    },
                ),
                ..old(self)@
            }),
    {
        let ids: (PendingId, ImageId) = self.store.request_insert(
            bytes,
            max_pixels,
            timeout,
            Some(label),
            now,
        );
        self.pending.push(
            PendingImagePlacement { request: ids.0, row, col, preplaced_image_id: None },
        );
    }

    /// Takes one payload in.
    pub fn take_upload(
        &mut self,
        up: ImageUpload,
        max_pixels: u64,
        timeout: u64,
        now: u64,
        orders: &mut Vec<GridOrder>,
    )
        requires
            old(self).wf(),
            acceptable(old(self)@, up),
        ensures
            final(self).wf(),
            final(self)@ == taken(old(self)@, up, max_pixels, timeout, now),
            final(orders)@ == old(orders)@ + orders_of(old(self)@, up),
    {
        let ghost s = self@;
        let ghost given = orders@;
        if let Some(control) = up.animation_control {
            if let Some(id) = self.lookup(up.kitty_image_id) {
                self.store.apply_animation_control(
                    id,
                    control.control,
                    control.loop_count,
                    control.make_current,
                    control.edit_frame,
                    control.edit_gap_ms,
                    now,
                );
            }
            assert(self@ =~= taken(s, up, max_pixels, timeout, now));
            assert(orders@ =~= given + orders_of(s, up));
            return;
        }
        if let Some(spec) = up.animation_frame {
            if let Some(parent) = self.lookup(up.kitty_image_id) {
                if let Some((w, h)) = up.raw_rgba_dims {
                    let _ = self.store.request_insert_frame_rgba(
                        parent,
                        up.bytes,
                        w,
                        h,
                        up.label,
                        spec.target_slot,
                        spec.compose_base,
                        spec.gap_ms,
                        spec.dst_x,
                        spec.dst_y,
                        now,
                    );
                } else {
                    let _ = self.store.request_insert_frame(
                        parent,
                        up.bytes,
                        max_pixels,
                        timeout,
                        up.label,
                        spec.target_slot,
                        spec.compose_base,
                        spec.gap_ms,
                        spec.dst_x,
                        spec.dst_y,
                        now,
                    );
                }
            }
            assert(self@ =~= taken(s, up, max_pixels, timeout, now));
            assert(orders@ =~= given + orders_of(s, up));
            return;
        }
        let ids: (PendingId, ImageId) = if let Some((w, h)) = up.raw_rgba_dims {
            self.store.request_insert_animatable_rgba(up.bytes, w, h, up.label, now)
        } else if up.kitty_image_id.is_some() {
            self.store.request_insert_animatable(up.bytes, max_pixels, timeout, up.label, now)
        } else {
            self.store.request_insert(up.bytes, max_pixels, timeout, up.label, now)
        };
        if let Some(client) = up.kitty_image_id {
            self.kitty.insert(client, ids.1.0);
        }
        if up.display_immediately {
            orders.push(
                GridOrder::Place(
                    Placement {
                        image_id: ids.1,
                        row: up.cell_anchor.0,
                        col: up.cell_anchor.1,
                        rows: up.cell_extent.0,
                        cols: up.cell_extent.1,
                        z_index: up.z_index,
                        pixel_offset: up.pixel_offset,
                        src_rect: up.src_rect,
                        kitty_image_id: up.kitty_image_id,
                        kitty_placement_id: up.kitty_placement_id,
                    },
                ),
            );
        }
        let preplaced: Option<ImageId> = if suppress_deferred_placement(
            up.display_immediately,
            up.kitty_image_id,
        ) {
            Some(ids.1)
        } else {
            None
        };
        self.pending.push(
            PendingImagePlacement {
                request: ids.0,
                row: up.cell_anchor.0,
                col: up.cell_anchor.1,
                preplaced_image_id: preplaced,
            },
        );
        assert(self@ =~= taken(s, up, max_pixels, timeout, now));
        assert(orders@ =~= given + orders_of(s, up));
    }

    /// Takes payloads in, one after the other, as long as there are ids for
    /// new images. With images turned off, all payloads are dropped.
    pub fn take_uploads(
        &mut self,
        uploads: Vec<ImageUpload>,
        images_enabled: bool,
        max_pixels: u64,
        timeout: u64,
        now: u64,
    ) -> (drained: Drained)
        requires
            old(self).wf(),
        ensures
            final(self).wf(),
            drained.redraw == (images_enabled && uploads@.len() > 0),
            !images_enabled ==> drained.taken == 0 && final(self)@ == old(self)@
                && drained.orders@.len() == 0,
            images_enabled ==> ({
                let n = drained.taken as int;
                let intake = taken_all(old(self)@, uploads@.take(n), max_pixels, timeout, now);
                &&& 0 <= n <= uploads@.len()
                &&& n < uploads@.len() ==> !acceptable(intake.tab, uploads@[n])
                &&& final(self)@ == intake.tab
                &&& drained.orders@ == intake.orders
            }),
    {
        let ghost s = self@;
        let ghost given = uploads@;
        let count: usize = uploads.len();
        let mut orders: Vec<GridOrder> = Vec::new();
        let mut taken_in: usize = 0;
        if !images_enabled {
            return Drained { taken: 0, orders, redraw: false };
        }
        let mut stopped = false;
        assert(given.take(0) =~= Seq::<ImageUpload>::empty());
        for up in it: uploads
            invariant
                it.seq() == given,
                count == given.len(),
                self.wf(),
                taken_in <= it.index(),
                !stopped ==> taken_in == it.index(),
                stopped ==> taken_in < given.len() && !acceptable(
                    taken_all(s, given.take(taken_in as int), max_pixels, timeout, now).tab,
                    given[taken_in as int],
                ),
                self@ == taken_all(s, given.take(taken_in as int), max_pixels, timeout, now).tab,
                orders@ == taken_all(
                    s,
                    given.take(taken_in as int),
                    max_pixels,
                    timeout,
                    now,
                ).orders,
        {
            if !stopped {
                let ghost i = it.index() as int;
                proof {
                    assert(up == given[i]);
                    assert(given.take(i + 1).drop_last() =~= given.take(i));
                    assert(given.take(i + 1).last() == up);
                }
                let new_image = up.animation_control.is_none() && up.animation_frame.is_none();
                if new_image && !self.store.can_reserve() {
                    stopped = true;
                } else {
                    self.take_upload(up, max_pixels, timeout, now, &mut orders);
                    taken_in = taken_in + 1;
                }
            }
        }
        Drained { taken: taken_in, orders, redraw: count > 0 }
    }
}

/// How many cells a run of pixels covers: at least one, and no more than
/// a placement can have.
pub open spec fn cells_covering(pixels: int, cell: int) -> u16 {
    let n = (pixels + cell - 1) / cell;
    if n < 1 {
        1
    } else if n > u16::MAX {
        u16::MAX
    } else {
        n as u16
    }
}

/// How many cells a run of pixels covers.
fn cover(pixels: u32, cell: u32) -> (n: u16)
    requires
        cell > 0,
    ensures
        n == cells_covering(pixels as int, cell as int),
{
    let n: u64 = (pixels as u64 + cell as u64 - 1) / (cell as u64);
    if n < 1 {
        1
    } else if n > 65535 {
        65535
    } else {
        n as u16
    }
}

/// The first wait for a request.
pub open spec fn wait_for(pending: Seq<PendingImagePlacement>, request: PendingId, from: int) -> int
    decreases pending.len() - from,
{
    if from >= pending.len() || pending[from].request == request {
        from
    } else {
        wait_for(pending, request, from + 1)
    }
}

/// What resolved requests leave behind: the placements that still wait, the
/// orders for the grid, whether something became visible, and the failures.
pub struct Resolution {
    pub pending: Seq<PendingImagePlacement>,
    pub orders: Seq<GridOrder>,
    pub placed: bool,
    pub failures: Seq<DecodeError>,
}

/// A request is resolved. A decoded image that is not placed yet is placed
/// with as many cells as it needs; a failed one that is placed is removed.
pub open spec fn resolved(
    r: Resolution,
    images: Map<u32, entry::StoredView>,
    outcome: Outcome,
    line_height: u32,
    cell_w: u32,
) -> Resolution {
    let i = wait_for(r.pending, outcome.0, 0);
    if i >= r.pending.len() {
        r
    } else {
        let wait = r.pending[i];
        let rest = Resolution { pending: r.pending.remove(i), ..r };
        match (outcome.1, wait.preplaced_image_id) {
            (Ok(id), None) => if images.contains_key(id.0) && images[id.0].image is Some {
                let image = images[id.0].image->0;
                Resolution {
                    orders: r.orders.push(
                        GridOrder::Place(
                            Placement {
                                image_id: id,
                                row: wait.row,
                                col: wait.col,
                                rows: cells_covering(image.height_px as int, line_height as int),
                                cols: cells_covering(image.width_px as int, cell_w as int),
                                z_index: 0,
                                pixel_offset: (0u32, 0u32),
                                src_rect: None,
                                kitty_image_id: None,
                                kitty_placement_id: None,
                            },
                        ),
                    ),
                    placed: true,
                    ..rest
                }
            } else {
                rest
            },
            (Ok(_), Some(_)) => Resolution { placed: true, ..rest },
            (Err(e), None) => Resolution { failures: r.failures.push(e), ..rest },
            (Err(e), Some(id)) => Resolution {
                failures: r.failures.push(e),
                orders: r.orders.push(GridOrder::Remove(id)),
                ..rest
            },
        }
    }
}

/// The requests are resolved one after the other.
pub open spec fn resolved_all(
    pending: Seq<PendingImagePlacement>,
    images: Map<u32, entry::StoredView>,
    outcomes: Seq<Outcome>,
    line_height: u32,
    cell_w: u32,
) -> Resolution
    decreases outcomes.len(),
{
    if outcomes.len() == 0 {
        Resolution { pending, orders: Seq::empty(), placed: false, failures: Seq::empty() }
    } else {
        resolved(
            resolved_all(pending, images, outcomes.drop_last(), line_height, cell_w),
            images,
            outcomes.last(),
            line_height,
            cell_w,
        )
    }
}

/// What a poll calls for.
#[derive(Debug)]
pub struct PollEffect {
    pub uploads: Vec<Upload>,
    pub orders: Vec<GridOrder>,
    pub failures: Vec<DecodeError>,
    /// Whether something became visible.
    pub placed: bool,
    /// Whether the render loop is to tick once more.
    pub rearm: bool,
}

/// Whether the outcomes of a poll are those that the store reports: the
/// requests that timed out, in any order, and then the results.
pub open spec fn poll_outcomes(
    s: StoreView,
    arrived: Seq<model::ResultView>,
    nearest_filter: bool,
    now: u64,
    outcomes: Seq<Outcome>,
) -> bool {
    exists|timeouts: Seq<Outcome>| #[trigger]
        model::reports_expiry(s, now, timeouts) && outcomes == timeouts + model::delivered_all(
            store::poll_start(s, now),
            s.immediate_results + arrived,
            nearest_filter,
            now,
        ).outcomes
}

impl TabImages {
    /// Resolves requests.
    fn resolve(&mut self, outcomes: Vec<Outcome>, line_height: u32, cell_w: u32) -> (effect: (
        Vec<GridOrder>,
        Vec<DecodeError>,
        bool,
    ))
        requires
            old(self).wf(),
            line_height > 0,
            cell_w > 0,
        ensures
            final(self).wf(),
            final(self).store == old(self).store,
            final(self).kitty == old(self).kitty,
            ({
                let r = resolved_all(
                    old(self)@.pending,
                    old(self)@.store.images,
                    outcomes@,
                    line_height,
                    cell_w,
                );
                &&& final(self)@.pending == r.pending
                &&& effect.0@ == r.orders
                &&& effect.1@ == r.failures
                &&& effect.2 == r.placed
            }),
    {
        let ghost s = self@;
        let ghost all = outcomes@;
        let ghost kept = (self.store, self.kitty);
        let mut orders: Vec<GridOrder> = Vec::new();
        let mut failures: Vec<DecodeError> = Vec::new();
        let mut placed = false;
        assert(all.take(0) =~= Seq::<Outcome>::empty());
        for outcome in it: outcomes
            invariant
                it.seq() == all,
                line_height > 0,
                cell_w > 0,
                (self.store, self.kitty) == kept,
                kept.0@ == s.store,
                ({
                    let r = resolved_all(
                        s.pending,
                        s.store.images,
                        all.take(it.index() as int),
                        line_height,
                        cell_w,
                    );
                    &&& self.pending@ == r.pending
                    &&& orders@ == r.orders
                    &&& failures@ == r.failures
                    &&& placed == r.placed
                }),
        {
            let ghost before = self.pending@;
            proof {
                let i = it.index() as int;
                assert(outcome == all[i]);
                assert(all.take(i + 1).drop_last() =~= all.take(i));
                assert(all.take(i + 1).last() == outcome);
            }
            let mut at: usize = 0;
            while at < self.pending.len() && self.pending[at].request.0 != outcome.0.0
                invariant
                    at <= self.pending@.len(),
                    self.pending@ == before,
                    (self.store, self.kitty) == kept,
                    wait_for(before, outcome.0, 0) == wait_for(before, outcome.0, at as int),
                decreases self.pending@.len() - at,
            {
                at = at + 1;
            }
            if at < self.pending.len() {
                assert(before[at as int].request == outcome.0);
                let wait: PendingImagePlacement = self.pending.remove(at);
                match (outcome.1, wait.preplaced_image_id) {
                    (Ok(id), None) => {
                        if let Some(image) = self.store.peek(id) {
                            let rows: u16 = cover(image.height_px, line_height);
                            let cols: u16 = cover(image.width_px, cell_w);
                            orders.push(
                                GridOrder::Place(
                                    Placement {
                                        image_id: id,
                                        row: wait.row,
                                        col: wait.col,
                                        rows,
                                        cols,
                                        z_index: 0,
                                        pixel_offset: (0, 0),
                                        src_rect: None,
                                        kitty_image_id: None,
                                        kitty_placement_id: None,
                                    },
                                ),
                            );
                            placed = true;
                        }
                    },
                    (Ok(_), Some(_)) => {
                        placed = true;
                    },
                    (Err(e), None) => {
                        failures.push(e);
                    },
                    (Err(e), Some(id)) => {
                        failures.push(e);
                        orders.push(GridOrder::Remove(id));
                    },
                }
            }
        }
        assert(all.take(all.len() as int) =~= all);
        (orders, failures, placed)
    }

    /// Polls the store and turns what it finished into orders for the grid.
    /// Nothing happens when nothing is awaited. Where [`Store::can_poll`] says
    /// so, any results can be taken in.
    pub fn poll_pending(
        &mut self,
        results: Vec<DecodeResult>,
        nearest_filter: bool,
        line_height: u32,
        cell_w: u32,
        now: u64,
    ) -> (effect: PollEffect)
        requires
            old(self).wf(),
            model::all_deliverable(
                store::poll_start(old(self)@.store, now),
                old(self)@.store.immediate_results + store::result_views(results@),
                nearest_filter,
                now,
            ),
            line_height > 0,
            cell_w > 0,
        ensures
            final(self).wf(),
            final(self)@.kitty == old(self)@.kitty,
            old(self)@.pending.len() == 0 && old(self)@.store.pending.len() == 0 ==> {
                &&& final(self)@ == old(self)@
                &&& !effect.rearm && !effect.placed
                &&& effect.uploads@.len() == 0 && effect.orders@.len() == 0
                &&& effect.failures@.len() == 0
            },
            old(self)@.pending.len() > 0 || old(self)@.store.pending.len() > 0 ==> {
                let batch = model::delivered_all(
                    store::poll_start(old(self)@.store, now),
                    old(self)@.store.immediate_results + store::result_views(results@),
                    nearest_filter,
                    now,
                );
                &&& final(self)@.store == batch.store
                &&& store::upload_views(effect.uploads@) == batch.uploads
                &&& exists|outcomes: Seq<Outcome>| #[trigger]
                    poll_outcomes(
                        old(self)@.store,
                        store::result_views(results@),
                        nearest_filter,
                        now,
                        outcomes,
                    ) && {
                        let r = resolved_all(
                            old(self)@.pending,
                            batch.store.images,
                            outcomes,
                            line_height,
                            cell_w,
                        );
                        &&& final(self)@.pending == r.pending
                        &&& effect.orders@ == r.orders
                        &&& effect.failures@ == r.failures
                        &&& effect.placed == r.placed
                        &&& effect.rearm == (old(self)@.pending.len() > 0 || outcomes.len() > 0
                            || batch.store.pending.len() > 0)
                    }
            },
    {
        let ghost s = self@;
        if self.pending.len() == 0 && self.store.pending_count() == 0 {
            return PollEffect {
                uploads: Vec::new(),
                orders: Vec::new(),
                failures: Vec::new(),
                placed: false,
                rearm: false,
            };
        }
        let ghost arrived = store::result_views(results@);
        let polled: Polled = self.store.poll(results, nearest_filter, now);
        let rearm: bool = should_rearm_image_poll(
            self.pending.len() == 0,
            polled.outcomes.len() == 0,
            self.store.pending_count(),
        );
        let ghost outcomes = polled.outcomes@;
        assert(poll_outcomes(s.store, arrived, nearest_filter, now, outcomes));
        let effect: (Vec<GridOrder>, Vec<DecodeError>, bool) = self.resolve(
            polled.outcomes,
            line_height,
            cell_w,
        );
        PollEffect {
            uploads: polled.uploads,
            orders: effect.0,
            failures: effect.1,
            placed: effect.2,
            rearm,
        }
    }
}

/// Whether one of these placements shows the image.
pub open spec fn shows(shown: Seq<Placement>, id: u32) -> bool {
    exists|i: int| 0 <= i < shown.len() && (#[trigger] shown[i]).image_id.0 == id
}

/// Whether a request is in flight for the image.
pub open spec fn requested(s: StoreView, id: u32) -> bool {
    exists|pid: u32| #[trigger] s.pending.contains_key(pid) && s.pending[pid].image_id == id
}

/// Whether a program has a name for the image.
pub open spec fn client_named(kitty: Map<u32, u32>, id: u32) -> bool {
    exists|client: u32| #[trigger] kitty.contains_key(client) && kitty[client] == id
}

/// The images that are in use: those that are shown, requested, or named.
pub open spec fn in_use(s: TabView, shown: Seq<Placement>) -> Set<u32> {
    Set::new(|id: u32| shows(shown, id) || requested(s.store, id) || client_named(s.kitty, id))
}

impl TabImages {
    /// Adds the images that are shown.
    fn mark_shown(keep: &mut HashSet<u32>, shown: &Vec<Placement>)
        ensures
            final(keep)@ == old(keep)@.union(Set::new(|id: u32| shows(shown@, id))),
    {
        let ghost before = keep@;
        let mut i: usize = 0;
        assert(keep@ =~= before.union(Set::new(|id: u32| shows(shown@.take(0), id))));
        while i < shown.len()
            invariant
                i <= shown@.len(),
                keep@ == before.union(Set::new(|id: u32| shows(shown@.take(i as int), id))),
            decreases shown@.len() - i,
        {
            let id: u32 = shown[i].image_id.0;
            keep.insert(id);
            proof {
                let done = shown@.take(i as int);
                let next = shown@.take(i as int + 1);
                assert forall|k: u32| shows(next, k) <==> shows(done, k) || k == id by {
                    if shows(done, k) {
                        let j = choose|j: int| 0 <= j < done.len() && (#[trigger] done[j]).image_id.0
                            == k;
                        assert(next[j].image_id.0 == k);
                    }
                    if shows(next, k) {
                        let j = choose|j: int| 0 <= j < next.len() && (#[trigger] next[j]).image_id.0
                            == k;
                        if j < i {
                            assert(done[j].image_id.0 == k);
                        }
                    }
                    assert(next[i as int].image_id.0 == id);
                }
                assert(keep@ =~= before.union(Set::new(|k: u32| shows(next, k))));
            }
            i = i + 1;
        }
        assert(shown@.take(shown@.len() as int) =~= shown@);
    }

    /// Adds the images that a request is in flight for.
    fn mark_requested(&self, keep: &mut HashSet<u32>)
        ensures
            final(keep)@ == old(keep)@.union(Set::new(|id: u32| requested(self@.store, id))),
    {
        let ghost before = keep@;
        let pids: Vec<u32> = store::keys_of(&self.store.pending);
        let mut i: usize = 0;
        while i < pids.len()
            invariant
                i <= pids@.len(),
                forall|k: u32| #[trigger] self.store.pending@.contains_key(k) <==> pids@.contains(k),
                before.subset_of(keep@),
                forall|j: int|
                    0 <= j < i ==> keep@.contains(
                        self.store.pending@[#[trigger] pids@[j]].image_id,
                    ),
                forall|id: u32| #[trigger]
                    keep@.contains(id) ==> before.contains(id) || requested(self@.store, id),
            decreases pids@.len() - i,
        {
            let pid: u32 = pids[i];
            assert(pids@.contains(pid));
            if let Some(request) = self.store.pending.get(&pid) {
                assert(self@.store.pending.contains_key(pid));
                assert(requested(self@.store, request.image_id));
                keep.insert(request.image_id);
            }
            i = i + 1;
        }
        proof {
            assert forall|id: u32| requested(self@.store, id) implies keep@.contains(id) by {
                let pid = choose|pid: u32| #[trigger]
                    self@.store.pending.contains_key(pid) && self@.store.pending[pid].image_id
                        == id;
                assert(self.store.pending@.contains_key(pid));
                let j = choose|j: int| 0 <= j < pids@.len() && pids@[j] == pid;
                assert(keep@.contains(self.store.pending@[pids@[j]].image_id));
            }
            assert(keep@ =~= before.union(Set::new(|id: u32| requested(self@.store, id))));
        }
    }

    /// Adds the images that programs have a name for.
    fn mark_named(&self, keep: &mut HashSet<u32>)
        ensures
            final(keep)@ == old(keep)@.union(Set::new(|id: u32| client_named(self@.kitty, id))),
    {
        let ghost before = keep@;
        let clients: Vec<u32> = store::keys_of(&self.kitty);
        let mut i: usize = 0;
        while i < clients.len()
            invariant
                i <= clients@.len(),
                forall|k: u32| #[trigger] self.kitty@.contains_key(k) <==> clients@.contains(k),
                before.subset_of(keep@),
                forall|j: int| 0 <= j < i ==> keep@.contains(self.kitty@[#[trigger] clients@[j]]),
                forall|id: u32| #[trigger]
                    keep@.contains(id) ==> before.contains(id) || client_named(self@.kitty, id),
            decreases clients@.len() - i,
        {
            let client: u32 = clients[i];
            assert(clients@.contains(client));
            if let Some(id) = self.kitty.get(&client) {
                assert(self@.kitty.contains_key(client));
                assert(client_named(self@.kitty, *id));
                keep.insert(*id);
            }
            i = i + 1;
        }
        proof {
            assert forall|id: u32| client_named(self@.kitty, id) implies keep@.contains(id) by {
                let client = choose|client: u32| #[trigger]
                    self@.kitty.contains_key(client) && self@.kitty[client] == id;
                let j = choose|j: int| 0 <= j < clients@.len() && clients@[j] == client;
                assert(keep@.contains(self.kitty@[clients@[j]]));
            }
            assert(keep@ =~= before.union(Set::new(|id: u32| client_named(self@.kitty, id))));
        }
    }

    /// Drops the images that are not in use, and says which ones are.
    pub fn sweep(&mut self, shown: &Vec<Placement>) -> (keep: HashSet<u32>)
        requires
            old(self).wf(),
        ensures
            final(self).wf(),
            keep@ == in_use(old(self)@, shown@),
            final(self)@ == (TabView {
                store: model::retained(old(self)@.store, keep@),
                ..old(self)@
            }),
    {
        let mut keep: HashSet<u32> = HashSet::new();
        Self::mark_shown(&mut keep, shown);
        self.mark_requested(&mut keep);
        self.mark_named(&mut keep);
        assert(keep@ =~= in_use(self@, shown@));
        self.store.retain(&keep);
        keep
    }
}

/// A sweep leaves every image alone that is shown, requested or named, and every
/// awaited image reserved, so that its result can still be taken in.
pub proof fn sweep_leaves_images_in_use(s: TabView, shown: Seq<Placement>, id: u32)
    requires
        s.store.images.contains_key(id),
        shows(shown, id) || requested(s.store, id) || client_named(s.kitty, id),
    ensures
        ({
            let t = model::retained(s.store, in_use(s, shown));
            &&& t.images.contains_key(id)
            &&& t.images[id] == s.store.images[id]
            &&& model::reserved(s.store) ==> model::reserved(t)
        }),
{
    if model::reserved(s.store) {
        assert forall|pid: u32| #[trigger]
            s.store.pending.contains_key(pid) && s.store.pending[pid].kind is Base implies in_use(
            s,
            shown,
        ).contains(s.store.pending[pid].image_id) by {
            assert(requested(s.store, s.store.pending[pid].image_id));
        }
        laws::sweep_keeps_reservations(s.store, in_use(s, shown));
    }
}

/// An image is placed at most once: one that is placed when its payload comes
/// in, or that a program named, is not placed again when its decode is done.
pub proof fn image_is_placed_once(
    s: TabView,
    up: ImageUpload,
    r: Resolution,
    images: Map<u32, entry::StoredView>,
    line_height: u32,
    cell_w: u32,
)
    requires
        up.display_immediately || up.kitty_image_id is Some,
        r.pending == seq![
            wait_of(up, PendingId(s.store.next_pending), ImageId(s.store.next_id)),
        ],
    ensures
        resolved(
            r,
            images,
            (PendingId(s.store.next_pending), Ok(ImageId(s.store.next_id))),
            line_height,
            cell_w,
        ).orders == r.orders,
{
}

/// What a decode that was waited for leaves behind never waits again: each
/// resolved request takes at most one wait away and adds none.
pub proof fn resolving_takes_one_wait(
    r: Resolution,
    images: Map<u32, entry::StoredView>,
    outcome: Outcome,
    line_height: u32,
    cell_w: u32,
)
    ensures
        ({
            let t = resolved(r, images, outcome, line_height, cell_w);
            if exists|i: int| 0 <= i < r.pending.len() && (#[trigger] r.pending[i]).request
                == outcome.0 {
                t.pending.len() == r.pending.len() - 1
            } else {
                t == r
            }
        }),
{
    first_wait(r.pending, outcome.0, 0);
}

/// The first wait is a wait, and none stands before it.
proof fn first_wait(pending: Seq<PendingImagePlacement>, request: PendingId, from: int)
    requires
        0 <= from <= pending.len(),
    ensures
        ({
            let i = wait_for(pending, request, from);
            &&& from <= i <= pending.len()
            &&& i < pending.len() ==> pending[i].request == request
            &&& forall|j: int| from <= j < i ==> (#[trigger] pending[j]).request != request
        }),
    decreases pending.len() - from,
{
    if from < pending.len() && pending[from].request != request {
        first_wait(pending, request, from + 1);
    }
}

/// When a poll reports that the base of an image was taken in, the image is
/// there and has its texture.
pub proof fn decoded_image_is_there(
    s: StoreView,
    results: Seq<model::ResultView>,
    nearest_filter: bool,
    now: u64,
    k: int,
)
    requires
        model::store_wf(s),
        model::reserved(s),
        ({
            let outcomes = model::delivered_all(s, results, nearest_filter, now).outcomes;
            &&& 0 <= k < outcomes.len()
            &&& outcomes[k].1 is Ok
            &&& s.pending.contains_key(outcomes[k].0.0)
            &&& s.pending[outcomes[k].0.0].kind is Base
        }),
    ensures
        ({
            let batch = model::delivered_all(s, results, nearest_filter, now);
            let id = (batch.outcomes[k].1->Ok_0).0;
            &&& id == s.pending[batch.outcomes[k].0.0].image_id
            &&& batch.store.images.contains_key(id)
            &&& batch.store.images[id].image is Some
        }),
    decreases results.len(),
{
    let head = results.drop_last();
    let before = model::delivered_all(s, head, nearest_filter, now);
    let batch = model::delivered_all(s, results, nearest_filter, now);
    laws::reserved_results_are_deliverable(s, head, nearest_filter, now);
    requests_only_go(s, head, nearest_filter, now);
    let last = results.last();
    if k < before.outcomes.len() {
        decoded_image_is_there(s, head, nearest_filter, now, k);
        let pid = before.outcomes[k].0.0;
        let id = s.pending[pid].image_id;
        if before.store.pending.contains_key(last.pending_id) {
            assert(last.pending_id != pid);
            assert(s.pending.contains_key(last.pending_id));
            if before.store.pending[last.pending_id].image_id != id {
                laws::delivery_is_local(
                    before.store,
                    last,
                    nearest_filter,
                    now,
                    id,
                    pid,
                );
            } else {
                assert(!(s.pending[last.pending_id].kind is Base));
            }
        }
    } else {
        let request = before.store.pending[last.pending_id];
        assert(before.store.pending.contains_key(last.pending_id));
        assert(request == s.pending[last.pending_id]);
    }
}

/// An image that a poll took in survives the sweep that follows it, when it is
/// marked.
pub proof fn decoded_image_survives_the_sweep(
    s: StoreView,
    results: Seq<model::ResultView>,
    nearest_filter: bool,
    now: u64,
    k: int,
    keep: Set<u32>,
)
    requires
        model::store_wf(s),
        model::reserved(s),
        ({
            let outcomes = model::delivered_all(s, results, nearest_filter, now).outcomes;
            &&& 0 <= k < outcomes.len()
            &&& outcomes[k].1 is Ok
            &&& s.pending.contains_key(outcomes[k].0.0)
            &&& s.pending[outcomes[k].0.0].kind is Base
            &&& keep.contains((outcomes[k].1->Ok_0).0)
        }),
    ensures
        ({
            let batch = model::delivered_all(s, results, nearest_filter, now);
            let id = (batch.outcomes[k].1->Ok_0).0;
            let swept = model::retained(batch.store, keep);
            &&& swept.images.contains_key(id)
            &&& swept.images[id] == batch.store.images[id]
            &&& swept.images[id].image is Some
        }),
{
    decoded_image_is_there(s, results, nearest_filter, now, k);
}

/// Taking results in only takes requests away, and those that it reports are
/// gone.
proof fn requests_only_go(
    s: StoreView,
    results: Seq<model::ResultView>,
    nearest_filter: bool,
    now: u64,
)
    ensures
        ({
            let batch = model::delivered_all(s, results, nearest_filter, now);
            &&& forall|pid: u32| #[trigger]
                batch.store.pending.contains_key(pid) ==> s.pending.contains_key(pid)
                    && s.pending[pid] == batch.store.pending[pid]
            &&& forall|k: int|
                0 <= k < batch.outcomes.len() ==> !batch.store.pending.contains_key(
                    (#[trigger] batch.outcomes[k]).0.0,
                )
        }),
    decreases results.len(),
{
    if results.len() > 0 {
        let head = results.drop_last();
        requests_only_go(s, head, nearest_filter, now);
        let before = model::delivered_all(s, head, nearest_filter, now);
        let batch = model::delivered_all(s, results, nearest_filter, now);
        let last = results.last();
        let effect = model::delivered(before.store, last, nearest_filter, now);
        assert(effect.store.pending == if before.store.pending.contains_key(last.pending_id) {
            before.store.pending.remove(last.pending_id)
        } else {
            before.store.pending
        });
        assert forall|k: int| 0 <= k < batch.outcomes.len() implies !batch.store.pending.contains_key(
            (#[trigger] batch.outcomes[k]).0.0,
        ) by {
            if k < before.outcomes.len() {
                assert(batch.outcomes[k] == before.outcomes[k]);
            }
        }
    }
}

/// A payload for a new image that is to be shown is placed exactly once, right
/// then and whether the program named it or not: under the id that was reserved,
/// at the payload's place and with its size, order, offset, crop and names. One
/// that is not to be shown is not placed. Its decode is waited for either way, and
/// places the image itself only where nobody else does or did; and a name stands
/// for the image from then on.
pub proof fn new_image_is_placed_when_it_is_shown(
    tab: &mut TabImages,
    up: ImageUpload,
    max_pixels: u64,
    timeout: u64,
    now: u64,
    orders: &mut Vec<GridOrder>,
)
    requires
        call_ensures(TabImages::take_upload, (tab, up, max_pixels, timeout, now, orders), ()),
        up.animation_control is None,
        up.animation_frame is None,
    ensures
        up.display_immediately ==> final(orders)@ == old(orders)@.push(
            GridOrder::Place(
                (Placement {
                    image_id: ImageId(old(tab).store.next_id),
                    row: up.cell_anchor.0,
                    col: up.cell_anchor.1,
                    rows: up.cell_extent.0,
                    cols: up.cell_extent.1,
                    z_index: up.z_index,
                    pixel_offset: up.pixel_offset,
                    src_rect: up.src_rect,
                    kitty_image_id: up.kitty_image_id,
                    kitty_placement_id: up.kitty_placement_id,
                }),
            ),
        ),
        !up.display_immediately ==> final(orders)@ == old(orders)@,
        final(tab).pending@ == old(tab).pending@.push(
            (PendingImagePlacement {
                request: PendingId(old(tab).store.next_pending),
                row: up.cell_anchor.0,
                col: up.cell_anchor.1,
                preplaced_image_id: if up.display_immediately || up.kitty_image_id is Some {
                    Some(ImageId(old(tab).store.next_id))
                } else {
                    None
                },
            }),
        ),
        final(tab).kitty@ == match up.kitty_image_id {
            Some(client) => old(tab).kitty@.insert(client, old(tab).store.next_id),
            None => old(tab).kitty@,
        },
{
    let s = old(tab)@;
    if up.display_immediately {
        assert(final(orders)@ =~= old(orders)@.push(orders_of(s, up)[0]));
    } else {
        assert(final(orders)@ =~= old(orders)@);
    }
}

/// A payload for a new image is requested under the next two numbers: its pixels
/// are set aside where they need no decoding, and its bytes are handed to the
/// decoder otherwise, within the given time. Its pixels are kept where frames may
/// follow, that is where they came raw or the program named the image.
pub proof fn new_image_is_requested(
    tab: &mut TabImages,
    up: ImageUpload,
    max_pixels: u64,
    timeout: u64,
    now: u64,
    orders: &mut Vec<GridOrder>,
)
    requires
        call_ensures(TabImages::take_upload, (tab, up, max_pixels, timeout, now, orders), ()),
        up.animation_control is None,
        up.animation_frame is None,
    ensures
        ({
            let (s, t) = (old(tab).store@, final(tab).store@);
            let (id, pid) = (s.next_id, s.next_pending);
            let raw = up.raw_rgba_dims is Some;
            &&& t.images.contains_key(id) && t.images[id].image is None
            &&& t.pending == s.pending.insert(
                pid,
                PendingRequest {
                    image_id: id,
                    kind: PendingKind::Base { keep_rgba: raw || up.kitty_image_id is Some },
                    issued_at: now,
                    timeout: if raw {
                        60_000_000_000
                    } else {
                        timeout
                    },
                },
            )
            &&& raw ==> t.jobs == s.jobs && t.immediate_results == s.immediate_results.push(
                model::ResultView {
                    pending_id: pid,
                    label: model::label_view(up.label),
                    outcome: Ok(
                        model::PixelsView {
                            rgba: up.bytes@,
                            width: (up.raw_rgba_dims->0).0,
                            height: (up.raw_rgba_dims->0).1,
                        },
                    ),
                },
            )
            &&& !raw ==> t.immediate_results == s.immediate_results && t.jobs == s.jobs.push(
                model::JobView {
                    pending_id: pid,
                    bytes: up.bytes@,
                    max_pixels,
                    label: model::label_view(up.label),
                },
            )
            &&& forall|other: u32|
                other != id ==> t.images.contains_key(other) == #[trigger] s.images.contains_key(
                    other,
                ) && (s.images.contains_key(other) ==> t.images[other] == s.images[other])
        }),
{
}

/// A playback change or a frame goes to the image that the program's name stands
/// for and places nothing; without such an image it is dropped. Neither changes
/// what names stand for or what is waited for.
pub proof fn animation_payload_goes_to_its_image(
    tab: &mut TabImages,
    up: ImageUpload,
    max_pixels: u64,
    timeout: u64,
    now: u64,
    orders: &mut Vec<GridOrder>,
)
    requires
        call_ensures(TabImages::take_upload, (tab, up, max_pixels, timeout, now, orders), ()),
        up.animation_control is Some || up.animation_frame is Some,
    ensures
        final(orders)@ == old(orders)@,
        final(tab).pending@ == old(tab).pending@,
        final(tab).kitty@ == old(tab).kitty@,
        up.kitty_image_id is None || !old(tab).kitty@.contains_key(up.kitty_image_id->0)
            ==> final(tab).store@ == old(tab).store@,
        up.kitty_image_id is Some && old(tab).kitty@.contains_key(up.kitty_image_id->0) ==> ({
            let id = old(tab).kitty@[up.kitty_image_id->0];
            let (s, t) = (old(tab).store@, final(tab).store@);
            &&& !s.images.contains_key(id) ==> t == s
            &&& s.images.contains_key(id) && up.animation_control is Some ==> t.pending == s.pending
                && t.images == s.images.insert(
                id,
                entry::controlled(
                    s.images[id],
                    (up.animation_control->0).control,
                    (up.animation_control->0).loop_count,
                    (up.animation_control->0).make_current,
                    (up.animation_control->0).edit_frame,
                    (up.animation_control->0).edit_gap_ms,
                    now,
                ),
            )
            &&& s.images.contains_key(id) && up.animation_control is None ==> ({
                let spec = up.animation_frame->0;
                let pid = s.next_pending;
                &&& t.images == s.images
                &&& t.pending == s.pending.insert(
                    pid,
                    PendingRequest {
                        image_id: id,
                        kind: PendingKind::Frame {
                            dst_x: spec.dst_x,
                            dst_y: spec.dst_y,
                            compose_base: match spec.compose_base {
                                Some(n) => Some(
                                    (if n <= 1 {
                                        0
                                    } else {
                                        n - 1
                                    }) as u32,
                                ),
                                None => None,
                            },
                            delay_ms: spec.gap_ms,
                            target_slot: spec.target_slot,
                        },
                        issued_at: now,
                        timeout: if up.raw_rgba_dims is Some {
                            60_000_000_000
                        } else {
                            timeout
                        },
                    },
                )
                &&& up.raw_rgba_dims is None ==> t.jobs == s.jobs.push(
                    model::JobView {
                        pending_id: pid,
                        bytes: up.bytes@,
                        max_pixels,
                        label: model::label_view(up.label),
                    },
                )
                &&& up.raw_rgba_dims matches Some((w, h)) ==> t.immediate_results
                    == s.immediate_results.push(
                    model::ResultView {
                        pending_id: pid,
                        label: model::label_view(up.label),
                        outcome: Ok(model::PixelsView { rgba: up.bytes@, width: w, height: h }),
                    },
                )
            })
        }),
{
    assert(final(orders)@ =~= old(orders)@);
}

/// Payloads are taken in one after the other: the last one of a run is taken in
/// by the tab that the others left, and its orders come after theirs.
pub proof fn payloads_are_taken_in_one_by_one(
    tab: &mut TabImages,
    uploads: Vec<ImageUpload>,
    before: &mut TabImages,
    first: Vec<ImageUpload>,
    last: &mut TabImages,
    up: ImageUpload,
    orders: &mut Vec<GridOrder>,
    max_pixels: u64,
    timeout: u64,
    now: u64,
    drained: Drained,
    drained_first: Drained,
)
    requires
        call_ensures(
            TabImages::take_uploads,
            (tab, uploads, true, max_pixels, timeout, now),
            drained,
        ),
        call_ensures(
            TabImages::take_uploads,
            (before, first, true, max_pixels, timeout, now),
            drained_first,
        ),
        call_ensures(TabImages::take_upload, (last, up, max_pixels, timeout, now, orders), ()),
        uploads@ == first@.push(up),
        old(before)@ == old(tab)@,
        old(last)@ == final(before)@,
        old(orders)@ == drained_first.orders@,
        drained.taken == uploads@.len(),
        drained_first.taken == first@.len(),
    ensures
        final(tab)@ == final(last)@,
        drained.orders@ == final(orders)@,
{
    assert(uploads@.take(uploads@.len() as int) =~= uploads@);
    assert(first@.take(first@.len() as int) =~= first@);
    assert(uploads@.drop_last() =~= first@);
}

/// No payloads, or images turned off: nothing happens. A payload stays out only
/// where it is for a new image and the next id is still awaited.
pub proof fn payloads_stay_out_for_want_of_an_id(
    tab: &mut TabImages,
    uploads: Vec<ImageUpload>,
    images_enabled: bool,
    max_pixels: u64,
    timeout: u64,
    now: u64,
    drained: Drained,
)
    requires
        call_ensures(
            TabImages::take_uploads,
            (tab, uploads, images_enabled, max_pixels, timeout, now),
            drained,
        ),
    ensures
        !images_enabled || uploads@.len() == 0 ==> drained.orders@.len() == 0 && drained.taken == 0
            && final(tab)@ == old(tab)@ && !drained.redraw,
        images_enabled && uploads@.len() > 0 ==> drained.redraw,
        images_enabled && drained.taken < uploads@.len() ==> ({
            let stopped = uploads@[drained.taken as int];
            &&& stopped.animation_control is None && stopped.animation_frame is None
            &&& exists|pid: u32| #[trigger]
                final(tab)@.store.pending.contains_key(pid) && final(tab)@.store.pending[pid].kind
                    is Base && final(tab)@.store.pending[pid].image_id == final(tab)@.store.next_id
        }),
{
    if images_enabled && uploads@.len() == 0 {
        assert(uploads@.take(0) =~= Seq::<ImageUpload>::empty());
    }
}

/// What a finished decode does to the wait for it: an image that is not placed yet
/// is placed where it was asked for, with just as many cells as its pixels need;
/// one that is placed becomes visible; a failure is reported, and takes an image
/// that was placed out of the grid. A decode that nothing waits for changes
/// nothing.
pub proof fn finished_decode_resolves_its_wait(
    r: Resolution,
    images: Map<u32, entry::StoredView>,
    outcome: Outcome,
    line_height: u32,
    cell_w: u32,
    i: int,
)
    requires
        line_height > 0,
        cell_w > 0,
        0 <= i < r.pending.len(),
        r.pending[i].request == outcome.0,
        forall|j: int| 0 <= j < i ==> (#[trigger] r.pending[j]).request != outcome.0,
    ensures
        ({
            let t = resolved(r, images, outcome, line_height, cell_w);
            let wait = r.pending[i];
            &&& t.pending == r.pending.remove(i)
            &&& outcome.1 matches Err(e) ==> t.failures == r.failures.push(e) && t.placed
                == r.placed && t.orders == match wait.preplaced_image_id {
                Some(id) => r.orders.push(GridOrder::Remove(id)),
                None => r.orders,
            }
            &&& outcome.1 is Ok && wait.preplaced_image_id is Some ==> t.placed && t.orders
                == r.orders && t.failures == r.failures
            &&& outcome.1 matches Ok(id) ==> wait.preplaced_image_id is None
                && images.contains_key(id.0) && images[id.0].image is Some ==> ({
                let image = images[id.0].image->0;
                &&& t.placed && t.failures == r.failures
                &&& t.orders.len() == r.orders.len() + 1 && t.orders.drop_last() == r.orders
                &&& t.orders.last() matches GridOrder::Place(p) && p.image_id == id && p.row
                    == wait.row && p.col == wait.col && p.z_index == 0 && p.pixel_offset == (0u32,
                0u32) && p.src_rect is None && p.kitty_image_id is None
                    && p.kitty_placement_id is None && p.rows >= 1 && p.cols >= 1 && (image.height_px
                    <= 65535 * line_height ==> image.height_px <= p.rows * line_height && (p.rows
                    == 1 || (p.rows - 1) * line_height < image.height_px)) && (image.width_px
                    <= 65535 * cell_w ==> image.width_px <= p.cols * cell_w && (p.cols == 1 || (
                p.cols - 1) * cell_w < image.width_px))
            })
        }),
{
    first_wait(r.pending, outcome.0, 0);
    let t = resolved(r, images, outcome, line_height, cell_w);
    assert(wait_for(r.pending, outcome.0, 0) == i);
    if let Ok(id) = outcome.1 {
        if r.pending[i].preplaced_image_id is None && images.contains_key(id.0)
            && images[id.0].image is Some {
            let image = images[id.0].image->0;
            covering_is_tight(image.height_px as int, line_height as int);
            covering_is_tight(image.width_px as int, cell_w as int);
            assert(t.orders.drop_last() =~= r.orders);
        }
    }
}

/// Just as many cells as are needed, and at least one.
proof fn covering_is_tight(pixels: int, cell: int)
    requires
        pixels >= 0,
        cell > 0,
    ensures
        ({
            let n = cells_covering(pixels, cell) as int;
            &&& n >= 1
            &&& pixels <= 65535 * cell ==> pixels <= n * cell && (n == 1 || (n - 1) * cell < pixels)
        }),
{
    let q = (pixels + cell - 1) / cell;
    vstd::arithmetic::div_mod::lemma_fundamental_div_mod(pixels + cell - 1, cell);
    let m = (pixels + cell - 1) % cell;
    assert(cell * q == q * cell) by (nonlinear_arith);
    assert((q - 1) * cell == q * cell - cell) by (nonlinear_arith);
    assert(q >= 0) by (nonlinear_arith)
        requires
            q == (pixels + cell - 1) / cell,
            pixels + cell - 1 >= 0,
            cell > 0,
    ;
    if pixels <= 65535 * cell {
        assert(q <= 65535) by (nonlinear_arith)
            requires
                q * cell <= pixels + cell - 1,
                pixels <= 65535 * cell,
                cell > 0,
        ;
        let n = cells_covering(pixels, cell) as int;
        if q < 1 {
            assert(q * cell == 0) by (nonlinear_arith)
                requires
                    q == 0,
            ;
            assert(n == 1);
            assert(n * cell == cell) by (nonlinear_arith)
                requires
                    n == 1,
            ;
        } else {
            assert(n == q);
        }
        assert(pixels <= n * cell);
    }
}

/// An image for a cell is requested, without its pixels being kept, and its placement
/// waits for it at that cell behind the others.
pub proof fn image_for_a_cell_waits_for_its_size(
    tab: &mut TabImages,
    bytes: Vec<u8>,
    max_pixels: u64,
    timeout: u64,
    label: String,
    row: isize,
    col: isize,
    now: u64,
    store: &mut store::Store,
    ids: (PendingId, ImageId),
)
    requires
        call_ensures(
            TabImages::load_at_cell,
            (tab, bytes, max_pixels, timeout, label, row, col, now),
            (),
        ),
        old(store)@ == old(tab)@.store,
        call_ensures(
            store::Store::request_insert,
            (store, bytes, max_pixels, timeout, Some(label), now),
            ids,
        ),
    ensures
        final(tab)@.store == final(store)@,
        final(tab)@.kitty == old(tab)@.kitty,
        final(tab)@.pending.len() == old(tab)@.pending.len() + 1,
        final(tab)@.pending.drop_last() == old(tab)@.pending,
        final(tab)@.pending.last().request == ids.0,
        final(tab)@.pending.last().row == row && final(tab)@.pending.last().col == col,
        final(tab)@.pending.last().preplaced_image_id is None,
{
    assert(final(tab)@.pending.drop_last() =~= old(tab)@.pending);
}

/// A sweep drops the images that nobody shows, waits for or has a name for, and no
/// others.
pub proof fn sweep_drops_what_nobody_needs(
    tab: &mut TabImages,
    shown: &Vec<Placement>,
    keep: HashSet<u32>,
    id: u32,
)
    requires
        call_ensures(TabImages::sweep, (tab, shown), keep),
    ensures
        final(tab)@.pending == old(tab)@.pending && final(tab)@.kitty == old(tab)@.kitty,
        final(tab)@.store.pending == old(tab)@.store.pending,
        ({
            let s = old(tab)@;
            let needed = {
                ||| exists|i: int| 0 <= i < shown@.len() && (#[trigger] shown@[i]).image_id.0 == id
                ||| exists|pid: u32| #[trigger]
                    s.store.pending.contains_key(pid) && s.store.pending[pid].image_id == id
                ||| exists|client: u32| #[trigger]
                    s.kitty.contains_key(client) && s.kitty[client] == id
            };
            &&& keep@.contains(id) <==> needed
            &&& final(tab)@.store.images.contains_key(id) <==> s.store.images.contains_key(id)
                && needed
            &&& final(tab)@.store.images.contains_key(id) ==> final(tab)@.store.images[id]
                == s.store.images[id]
        }),
{
}

/// A finished decode makes no placement where the image is placed already or a
/// program places it; and polling goes on while anything waits.
pub proof fn polling_goes_on_while_anything_waits(
    display_immediately: bool,
    client: Option<u32>,
    suppressed: bool,
    no_placements: bool,
    no_results: bool,
    requests: usize,
    again: bool,
)
    requires
        call_ensures(suppress_deferred_placement, (display_immediately, client), suppressed),
        call_ensures(should_rearm_image_poll, (no_placements, no_results, requests), again),
    ensures
        !suppressed <==> !display_immediately && client is None,
        !again <==> no_placements && no_results && requests == 0,
{
}

/// A tab starts without images, waits and names.
pub proof fn tab_starts_empty(cap_bytes: usize, tab: TabImages)
    requires
        call_ensures(TabImages::new, (cap_bytes,), tab),
    ensures
        tab.store@.images == Map::<u32, entry::StoredView>::empty(),
        tab.store@.cap_bytes == cap_bytes && tab.store@.total_bytes == 0,
        tab.store@.next_id == 1 && tab.store@.next_pending == 1,
        tab.store@.pending == Map::<u32, model::PendingRequest>::empty(),
        tab.store@.jobs.len() == 0 && tab.store@.immediate_results.len() == 0,
        tab.pending@.len() == 0 && tab.kitty@ == Map::<u32, u32>::empty(),
{
}

/// A payload for a new image is requested of the store as raw pixels, as an image
/// that may receive frames where the program named it, and as a plain one otherwise.
pub proof fn new_image_is_requested_of_the_store(
    tab: &mut TabImages,
    up: ImageUpload,
    max_pixels: u64,
    timeout: u64,
    now: u64,
    orders: &mut Vec<GridOrder>,
    store: &mut store::Store,
    ids: (PendingId, ImageId),
)
    requires
        call_ensures(TabImages::take_upload, (tab, up, max_pixels, timeout, now, orders), ()),
        up.animation_control is None,
        up.animation_frame is None,
        old(store)@ == old(tab)@.store,
        up.raw_rgba_dims is Some ==> call_ensures(
            store::Store::request_insert_animatable_rgba,
            (
                store,
                up.bytes,
                (up.raw_rgba_dims->0).0,
                (up.raw_rgba_dims->0).1,
                up.label,
                now,
            ),
            ids,
        ),
        up.raw_rgba_dims is None && up.kitty_image_id is Some ==> call_ensures(
            store::Store::request_insert_animatable,
            (store, up.bytes, max_pixels, timeout, up.label, now),
            ids,
        ),
        up.raw_rgba_dims is None && up.kitty_image_id is None ==> call_ensures(
            store::Store::request_insert,
            (store, up.bytes, max_pixels, timeout, up.label, now),
            ids,
        ),
    ensures
        final(tab)@.store == final(store)@,
{
}

/// A playback change or a frame is handed to the store for the image that the
/// program's name stands for.
pub proof fn animation_payload_is_handed_to_the_store(
    tab: &mut TabImages,
    up: ImageUpload,
    max_pixels: u64,
    timeout: u64,
    now: u64,
    orders: &mut Vec<GridOrder>,
    store: &mut store::Store,
    id: ImageId,
    pid: Option<PendingId>,
)
    requires
        call_ensures(TabImages::take_upload, (tab, up, max_pixels, timeout, now, orders), ()),
        up.kitty_image_id is Some,
        old(tab).kitty@.contains_key(up.kitty_image_id->0),
        id == ImageId(old(tab).kitty@[up.kitty_image_id->0]),
        old(store)@ == old(tab)@.store,
        up.animation_control is Some ==> call_ensures(
            store::Store::apply_animation_control,
            (
                store,
                id,
                (up.animation_control->0).control,
                (up.animation_control->0).loop_count,
                (up.animation_control->0).make_current,
                (up.animation_control->0).edit_frame,
                (up.animation_control->0).edit_gap_ms,
                now,
            ),
            (),
        ),
        up.animation_control is None ==> up.animation_frame is Some,
        up.animation_control is None && up.raw_rgba_dims is Some ==> call_ensures(
            store::Store::request_insert_frame_rgba,
            (
                store,
                id,
                up.bytes,
                (up.raw_rgba_dims->0).0,
                (up.raw_rgba_dims->0).1,
                up.label,
                (up.animation_frame->0).target_slot,
                (up.animation_frame->0).compose_base,
                (up.animation_frame->0).gap_ms,
                (up.animation_frame->0).dst_x,
                (up.animation_frame->0).dst_y,
                now,
            ),
            pid,
        ),
        up.animation_control is None && up.raw_rgba_dims is None ==> call_ensures(
            store::Store::request_insert_frame,
            (
                store,
                id,
                up.bytes,
                max_pixels,
                timeout,
                up.label,
                (up.animation_frame->0).target_slot,
                (up.animation_frame->0).compose_base,
                (up.animation_frame->0).gap_ms,
                (up.animation_frame->0).dst_x,
                (up.animation_frame->0).dst_y,
                now,
            ),
            pid,
        ),
    ensures
        final(tab)@.store == final(store)@,
{
}

/// Payloads that stay out leave no trace: what was taken in is all that counts.
pub proof fn payloads_that_stay_out_leave_no_trace(
    tab: &mut TabImages,
    uploads: Vec<ImageUpload>,
    drained: Drained,
    other: &mut TabImages,
    first: Vec<ImageUpload>,
    drained_first: Drained,
    max_pixels: u64,
    timeout: u64,
    now: u64,
)
    requires
        call_ensures(
            TabImages::take_uploads,
            (tab, uploads, true, max_pixels, timeout, now),
            drained,
        ),
        call_ensures(
            TabImages::take_uploads,
            (other, first, true, max_pixels, timeout, now),
            drained_first,
        ),
        old(other)@ == old(tab)@,
        first@ == uploads@.take(drained.taken as int),
        drained.taken <= uploads@.len(),
        drained_first.taken == first@.len(),
    ensures
        final(tab)@ == final(other)@,
        drained.orders@ == drained_first.orders@,
{
    assert(first@.take(first@.len() as int) =~= first@);
}

/// An image of more cells than a placement can have gets as many as it can; and an
/// image that is gone when its decode is reported is not placed.
pub proof fn huge_image_gets_all_cells(
    r: Resolution,
    images: Map<u32, entry::StoredView>,
    request: PendingId,
    id: ImageId,
    line_height: u32,
    cell_w: u32,
    i: int,
)
    requires
        line_height > 0,
        cell_w > 0,
        0 <= i < r.pending.len(),
        r.pending[i].request == request,
        r.pending[i].preplaced_image_id is None,
        forall|j: int| 0 <= j < i ==> (#[trigger] r.pending[j]).request != request,
    ensures
        ({
            let t = resolved(r, images, (request, Ok(id)), line_height, cell_w);
            let there = images.contains_key(id.0) && images[id.0].image is Some;
            let image = images[id.0].image->0;
            &&& !there ==> t.orders == r.orders && t.placed == r.placed && t.failures == r.failures
                && t.pending == r.pending.remove(i)
            &&& there && image.height_px > 65535 * line_height ==> t.orders.last() is Place
            &&& there && image.height_px > 65535 * line_height ==> (t.orders.last()->Place_0).rows == 65535
            &&& there && image.width_px > 65535 * cell_w ==> t.orders.last() is Place
            &&& there && image.width_px > 65535 * cell_w ==> (t.orders.last()->Place_0).cols == 65535
        }),
{
    first_wait(r.pending, request, 0);
    assert(wait_for(r.pending, request, 0) == i);
    if images.contains_key(id.0) && images[id.0].image is Some {
        let image = images[id.0].image->0;
        too_many_cells(image.height_px as int, line_height as int);
        too_many_cells(image.width_px as int, cell_w as int);
    }
}

proof fn too_many_cells(pixels: int, cell: int)
    requires
        pixels >= 0,
        cell > 0,
    ensures
        pixels > 65535 * cell ==> cells_covering(pixels, cell) == 65535,
{
    if pixels > 65535 * cell {
        let q = (pixels + cell - 1) / cell;
        assert(q >= 65536) by (nonlinear_arith)
            requires
                q == (pixels + cell - 1) / cell,
                pixels > 65535 * cell,
                cell > 0,
        ;
    }
}

/// Decodes are resolved one after the other, from the first on.
pub proof fn decodes_are_resolved_one_by_one(
    pending: Seq<PendingImagePlacement>,
    images: Map<u32, entry::StoredView>,
    outcomes: Seq<Outcome>,
    last: Outcome,
    line_height: u32,
    cell_w: u32,
)
    ensures
        resolved_all(pending, images, outcomes.push(last), line_height, cell_w) == resolved(
            resolved_all(pending, images, outcomes, line_height, cell_w),
            images,
            last,
            line_height,
            cell_w,
        ),
        ({
            let none = resolved_all(pending, images, Seq::empty(), line_height, cell_w);
            &&& none.pending == pending && none.orders.len() == 0 && none.failures.len() == 0
            &&& !none.placed
        }),
{
    assert(outcomes.push(last).drop_last() =~= outcomes);
    assert(outcomes.push(last).last() == last);
}

/// A poll takes in what the store reports: the store does what it does alone, the
/// textures are those that it orders, and the one decode that it reports is resolved
/// against the waits. The loop ticks on while anything was awaited or reported or
/// still is.
#[verifier::rlimit(40)]
pub proof fn poll_resolves_what_the_store_reports(
    tab: &mut TabImages,
    results: Vec<DecodeResult>,
    nearest_filter: bool,
    line_height: u32,
    cell_w: u32,
    now: u64,
    effect: PollEffect,
    store: &mut store::Store,
    polled: Polled,
    start: Resolution,
)
    requires
        call_ensures(
            TabImages::poll_pending,
            (tab, results, nearest_filter, line_height, cell_w, now),
            effect,
        ),
        call_ensures(store::Store::poll, (store, results, nearest_filter, now), polled),
        old(tab).wf(),
        old(store)@ == old(tab)@.store,
        old(store)@.immediate_results.len() == 0,
        results@.len() == 1,
        forall|pid: u32| #[trigger]
            old(store)@.pending.contains_key(pid) ==> now <= old(store)@.pending[pid].issued_at
                + old(store)@.pending[pid].timeout,
        old(tab)@.pending.len() > 0 || old(tab)@.store.pending.len() > 0,
        start == (Resolution {
            pending: old(tab)@.pending,
            orders: Seq::empty(),
            placed: false,
            failures: Seq::empty(),
        }),
    ensures
        final(tab)@.store == final(store)@,
        final(tab)@.kitty == old(tab)@.kitty,
        effect.uploads@.len() == polled.uploads@.len(),
        polled.outcomes@.len() <= 1,
        ({
            let end = if polled.outcomes@.len() == 0 {
                start
            } else {
                resolved(
                    start,
                    final(store)@.images,
                    polled.outcomes@[0],
                    line_height,
                    cell_w,
                )
            };
            &&& final(tab)@.pending == end.pending
            &&& effect.orders@ == end.orders
            &&& effect.failures@ == end.failures
            &&& effect.placed == end.placed
        }),
        effect.rearm <==> old(tab)@.pending.len() > 0 || polled.outcomes@.len() > 0 || final(store)@.pending.len() > 0,
{
    let s = old(tab)@.store;
    let arrived = store::result_views(results@);
    let all = s.immediate_results + arrived;
    assert(all =~= seq![results@[0]@]);
    let begun = store::poll_start(s, now);
    let batch = model::delivered_all(begun, all, nearest_filter, now);
    let none = Seq::<model::ResultView>::empty();
    assert(all.drop_last() =~= none);
    assert(model::delivered_all(begun, none, nearest_filter, now).outcomes.len() == 0);
    assert(batch.outcomes.len() <= 1);
    let outcomes = choose|outcomes: Seq<Outcome>| #[trigger]
        poll_outcomes(s, arrived, nearest_filter, now, outcomes) && {
            let r = resolved_all(
                old(tab)@.pending,
                batch.store.images,
                outcomes,
                line_height,
                cell_w,
            );
            &&& final(tab)@.pending == r.pending
            &&& effect.orders@ == r.orders
            &&& effect.failures@ == r.failures
            &&& effect.placed == r.placed
            &&& effect.rearm == (old(tab)@.pending.len() > 0 || outcomes.len() > 0
                || batch.store.pending.len() > 0)
        };
    let late = choose|timeouts: Seq<Outcome>| #[trigger]
        model::reports_expiry(s, now, timeouts) && outcomes == timeouts + batch.outcomes;
    if late.len() > 0 {
        assert(model::expired(s, now, late[0].0.0));
    }
    let reported = choose|timeouts: Seq<Outcome>| #[trigger]
        model::reports_expiry(s, now, timeouts) && polled.outcomes@ == timeouts + batch.outcomes;
    if reported.len() > 0 {
        assert(model::expired(s, now, reported[0].0.0));
    }
    assert(outcomes =~= batch.outcomes);
    assert(polled.outcomes@ =~= batch.outcomes);
    assert(store::upload_views(effect.uploads@).len() == effect.uploads@.len());
    assert(store::upload_views(polled.uploads@).len() == polled.uploads@.len());
    if outcomes.len() == 1 {
        assert(outcomes =~= Seq::<Outcome>::empty().push(outcomes[0]));
        decodes_are_resolved_one_by_one(
            old(tab)@.pending,
            batch.store.images,
            Seq::empty(),
            outcomes[0],
            line_height,
            cell_w,
        );
        let first = resolved_all(
            old(tab)@.pending,
            batch.store.images,
            Seq::empty(),
            line_height,
            cell_w,
        );
        assert(first.orders =~= start.orders && first.failures =~= start.failures);
    } else {
        assert(outcomes =~= Seq::<Outcome>::empty());
    }
}

/// Where nothing is awaited, a poll does nothing.
pub proof fn poll_of_nothing_does_nothing(
    tab: &mut TabImages,
    results: Vec<DecodeResult>,
    nearest_filter: bool,
    line_height: u32,
    cell_w: u32,
    now: u64,
    effect: PollEffect,
)
    requires
        call_ensures(
            TabImages::poll_pending,
            (tab, results, nearest_filter, line_height, cell_w, now),
            effect,
        ),
        old(tab)@.pending.len() == 0,
        old(tab)@.store.pending.len() == 0,
    ensures
        final(tab)@ == old(tab)@,
        effect.uploads@.len() == 0 && effect.orders@.len() == 0 && effect.failures@.len() == 0,
        !effect.placed && !effect.rearm,
{
}

} // verus!
