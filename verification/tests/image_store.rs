use std::collections::HashSet;
use yutani::images::decode::{decode_to_rgba, has_sound_palette, peek_dimensions, DecodeError};
use yutani::images::entry::{
    resolve_current_frame, AnimationState, Frame, FrameSlot, GpuImage, PlayMode, StoredImage,
    TextureKey,
};
use yutani::images::model::{DecodedPixels, DecodeResult, ImageId, Outcome};
use yutani::images::preview::{halfblock_cells, Rgba};
use yutani::images::store::{run_decode_job, Store, DEFAULT_CAP_BYTES};

const MS: u64 = 1_000_000;
const SEC: u64 = 1_000_000_000;

fn png_of(w: u32, h: u32, color: [u8; 4]) -> Vec<u8> {
    let buf = image::RgbaImage::from_pixel(w, h, image::Rgba(color));
    let mut bytes: Vec<u8> = Vec::new();
    image::DynamicImage::ImageRgba8(buf)
        .write_to(&mut std::io::Cursor::new(&mut bytes), image::ImageOutputFormat::Png)
        .expect("encode");
    bytes
}

fn make_png(w: u32, h: u32) -> Vec<u8> {
    png_of(w, h, [255, 0, 0, 255])
}

/// Runs the decode jobs that wait and polls once.
fn settle(s: &mut Store, now: u64) -> Vec<Outcome> {
    let results: Vec<DecodeResult> = s.take_jobs().into_iter().map(run_decode_job).collect();
    assert!(s.can_poll(now));
    s.poll(results, false, now).outcomes
}

fn texture(id: u32, w: u32, h: u32) -> GpuImage {
    GpuImage {
        width_px: w,
        height_px: h,
        texture: TextureKey { image: id, slot: FrameSlot::Base },
    }
}

/// An image that is there already.
fn insert_filled(s: &mut Store, w: u32, h: u32, bytes: usize) -> ImageId {
    let id = s.next_id;
    s.next_id = id.wrapping_add(1).max(1);
    let mut entry = StoredImage::reserved(0);
    entry.image = Some(texture(id, w, h));
    entry.bytes = bytes;
    entry.base_dims = Some((w, h));
    s.images.insert(id, entry);
    s.total_bytes += bytes;
    ImageId(id)
}

fn make_frame_test_image(s: &mut Store, dims: (u32, u32)) -> ImageId {
    let (w, h) = dims;
    let n = (w as usize) * (h as usize) * 4;
    let id = insert_filled(s, w, h, n);
    s.images.get_mut(&id.0).expect("just inserted").base_rgba = Some(vec![0x55u8; n]);
    id
}

fn push_frame(s: &mut Store, parent: ImageId, rgba: Vec<u8>, delay_ms: u32) {
    let entry = s.images.get_mut(&parent.0).expect("parent");
    let place = entry.frames.len();
    entry.frames.push(Frame {
        image: GpuImage {
            width_px: 4,
            height_px: 4,
            texture: TextureKey { image: parent.0, slot: FrameSlot::Frame(place) },
        },
        rgba,
        delay_ms,
        bytes: 0,
    });
}

#[test]
fn decode_tiny_png_returns_one_pixel_rgba() {
    let png = make_png(1, 1);
    let (rgba, w, h) = decode_to_rgba(&png, 100).expect("decode");
    assert_eq!((w, h), (1, 1));
    assert_eq!(rgba.len(), 4);
    assert_eq!(&rgba, &[255, 0, 0, 255]);
}

#[test]
fn decode_rejects_oversized_image_without_allocating() {
    let png = make_png(4, 4);
    let err = decode_to_rgba(&png, 4).expect_err("expected size rejection");
    match err {
        DecodeError::TooLarge { pixels, max } => {
            assert_eq!(pixels, 16);
            assert_eq!(max, 4);
        }
        other => panic!("expected TooLarge, got {other:?}"),
    }
}

#[test]
fn decode_rejects_malformed_bytes() {
    let err = decode_to_rgba(b"this is not a png", 1_000_000).expect_err("expected decode err");
    assert!(matches!(err, DecodeError::Decode(_)));
}

#[test]
fn header_tells_the_size_without_decoding() {
    assert_eq!(peek_dimensions(&make_png(3, 5)), Some((3, 5)));
    assert_eq!(peek_dimensions(b"this is not a png"), None);
}

#[test]
fn store_is_empty_on_construction() {
    let s = Store::new(DEFAULT_CAP_BYTES);
    assert_eq!(s.len(), 0);
    assert_eq!(s.bytes(), 0);
    assert!(s.is_empty());
    assert_eq!(s.pending_count(), 0);
    assert_eq!(s.cap_bytes(), DEFAULT_CAP_BYTES);
    assert_eq!(DEFAULT_CAP_BYTES, 256 * 1024 * 1024);
}

#[test]
fn store_retain_drops_unreferenced_images_and_recomputes_bytes() {
    let mut s = Store::new(DEFAULT_CAP_BYTES);
    let id_a = insert_filled(&mut s, 4, 4, 64);
    let id_b = insert_filled(&mut s, 4, 4, 64);
    let _id_c = insert_filled(&mut s, 4, 4, 64);
    assert_eq!(s.len(), 3);
    assert_eq!(s.bytes(), 192);

    let keep: HashSet<u32> = [id_a.0, id_b.0].into_iter().collect();
    s.retain(&keep);
    assert_eq!(s.len(), 2);
    assert_eq!(s.bytes(), 128);
    assert!(s.peek(id_a).is_some());
    assert!(s.peek(id_b).is_some());

    s.retain(&HashSet::new());
    assert_eq!(s.len(), 0);
    assert_eq!(s.bytes(), 0);
}

#[test]
fn store_get_returns_inserted_image_and_bumps_last_used() {
    let mut s = Store::new(DEFAULT_CAP_BYTES);
    let id = insert_filled(&mut s, 4, 4, 16);
    let before = s.images[&id.0].last_used;
    assert!(s.get(id, 2 * MS).is_some());
    let after = s.images[&id.0].last_used;
    assert!(after > before, "get() should refresh last_used");
}

#[test]
fn store_ids_are_monotonic_and_dont_reuse_after_drop() {
    let mut s = Store::new(DEFAULT_CAP_BYTES);
    let id1 = insert_filled(&mut s, 4, 4, 1);
    s.retain(&HashSet::new());
    let id2 = insert_filled(&mut s, 4, 4, 1);
    assert_ne!(id1, id2, "id reuse would break stale-placement detection");
    let (_, id3) = s.request_insert(Vec::new(), 1, SEC, None, 0);
    assert!(id3.0 > id2.0);
}

#[test]
fn request_insert_returns_distinct_pending_ids() {
    let mut s = Store::new(DEFAULT_CAP_BYTES);
    let (pa, ia) = s.request_insert(b"x".to_vec(), 1, SEC, None, 0);
    let (pb, ib) = s.request_insert(b"y".to_vec(), 1, SEC, None, 0);
    assert_ne!(pa, pb);
    assert_ne!(ia, ib, "reserved ids must also be distinct");
    assert_eq!(s.pending_count(), 2);
}

#[test]
fn request_insert_reserves_image_id_immediately_with_no_pixels() {
    let mut s = Store::new(DEFAULT_CAP_BYTES);
    let (_pending, image_id) = s.request_insert(make_png(2, 2), 100, 5 * SEC, None, 0);
    assert!(s.peek(image_id).is_none());
    assert!(s.is_pending(image_id));
    assert_eq!(s.bytes(), 0);
    assert_eq!(s.len(), 1);
}

#[test]
fn retain_keeps_pending_reservation_alive() {
    let mut s = Store::new(DEFAULT_CAP_BYTES);
    let (_pending, image_id) = s.request_insert(make_png(2, 2), 100, 5 * SEC, None, 0);
    let keep: HashSet<u32> = std::iter::once(image_id.0).collect();
    s.retain(&keep);
    assert!(s.is_pending(image_id));
    assert_eq!(s.len(), 1);
}

#[test]
fn poll_times_out_old_requests() {
    let mut s = Store::new(DEFAULT_CAP_BYTES);
    let (pending, image_id) = s.request_insert(b"x".to_vec(), 1, 0, None, 0);
    assert!(s.is_pending(image_id), "reservation present before poll");
    let results = s.poll(Vec::new(), false, 2 * MS).outcomes;
    assert_eq!(results.len(), 1);
    assert_eq!(results[0].0, pending);
    assert!(matches!(results[0].1, Err(DecodeError::TimedOut { elapsed_ms: 2 })));
    assert_eq!(s.pending_count(), 0);
    assert!(s.peek(image_id).is_none());
    assert!(!s.is_pending(image_id));
    assert_eq!(s.len(), 0);
}

#[test]
fn late_result_is_dropped_in_silence() {
    let mut s = Store::new(DEFAULT_CAP_BYTES);
    s.request_insert(make_png(2, 2), 100, MS, None, 0);
    let results = settle(&mut s, 2 * MS);
    assert_eq!(results.len(), 1);
    assert!(matches!(results[0].1, Err(DecodeError::TimedOut { .. })));
    assert!(s.is_empty());
    assert_eq!(s.bytes(), 0);
}

#[test]
fn poll_uploads_decoded_image_to_store() {
    let mut s = Store::new(DEFAULT_CAP_BYTES);
    let (pending, reserved) = s.request_insert(make_png(2, 2), 100, 5 * SEC, Some("test".into()), 0);
    let results: Vec<DecodeResult> = s.take_jobs().into_iter().map(run_decode_job).collect();
    let polled = s.poll(results, true, MS);
    let results = polled.outcomes;
    assert_eq!(results.len(), 1, "decode didn't complete in time");
    assert_eq!(results[0].0, pending);
    let id = *results[0].1.as_ref().expect("decode succeeded");
    assert_eq!(id, reserved);
    assert!(s.peek(id).is_some());
    assert!(!s.is_pending(id));
    assert_eq!(s.bytes(), 16);

    assert_eq!(polled.uploads.len(), 1);
    let upload = &polled.uploads[0];
    assert_eq!(upload.image, texture(id.0, 2, 2));
    assert_eq!(upload.rgba, [255, 0, 0, 255].repeat(4));
    assert!(upload.nearest_filter);
    assert_eq!(upload.label.as_deref(), Some("test"));
}

#[test]
fn poll_refuses_upload_that_would_exceed_cap() {
    let mut s = Store::new(32);
    let (pending, reserved) = s.request_insert(make_png(4, 4), 100, 5 * SEC, None, 0);
    let results = settle(&mut s, MS);
    assert_eq!(results.len(), 1);
    assert_eq!(results[0].0, pending);
    assert!(matches!(
        results[0].1,
        Err(DecodeError::BudgetExceeded { needed: 64, available: 32 })
    ));
    assert!(s.is_empty());
    assert_eq!(s.bytes(), 0);
    assert!(s.peek(reserved).is_none());
}

#[test]
fn poll_surfaces_decode_errors() {
    let mut s = Store::new(DEFAULT_CAP_BYTES);
    let (pending, reserved) = s.request_insert(b"not a png".to_vec(), 100, 5 * SEC, None, 0);
    let results = settle(&mut s, MS);
    assert_eq!(results.len(), 1);
    assert_eq!(results[0].0, pending);
    assert!(matches!(results[0].1, Err(DecodeError::Decode(_))));
    assert!(s.peek(reserved).is_none());
}

#[test]
fn poll_with_no_results_returns_empty() {
    let mut s = Store::new(DEFAULT_CAP_BYTES);
    let polled = s.poll(Vec::new(), false, 0);
    assert!(polled.outcomes.is_empty());
    assert!(polled.uploads.is_empty());
}

#[test]
fn store_get_returns_none_for_unknown_id() {
    let mut s = Store::new(DEFAULT_CAP_BYTES);
    assert!(s.get(ImageId(1), 0).is_none());
    assert!(s.get(ImageId(99_999), 0).is_none());
}

#[test]
fn store_peek_returns_none_for_unknown_id() {
    let s = Store::new(DEFAULT_CAP_BYTES);
    assert!(s.peek(ImageId(1)).is_none());
    assert!(s.peek(ImageId(99_999)).is_none());
}

#[test]
fn decode_error_display_includes_useful_context() {
    let s = DecodeError::TooLarge { pixels: 1024, max: 256 }.describe();
    assert!(s.contains("1024"), "got: {s}");
    assert!(s.contains("256"), "got: {s}");
    assert_eq!(s, "image too large: 1024 pixels (max 256)");

    let s = DecodeError::TimedOut { elapsed_ms: 1500 }.describe();
    assert!(s.contains("1500"), "got: {s}");
    assert!(s.to_lowercase().contains("tim"), "got: {s}");

    let s = DecodeError::BudgetExceeded { needed: 4096, available: 100 }.describe();
    assert!(s.contains("4096"), "got: {s}");
    assert!(s.contains("100"), "got: {s}");

    let inner = image::ImageError::Limits(image::error::LimitError::from_kind(
        image::error::LimitErrorKind::DimensionError,
    ));
    let detail = inner.to_string();
    let s = DecodeError::Decode(inner).describe();
    assert!(s.contains("decode"), "got: {s}");
    assert!(s.ends_with(&detail), "got: {s}");

    let s = DecodeError::ParentNotReady.describe();
    assert_eq!(s, "animation frame arrived before parent image finished decoding");
}

#[test]
fn store_preview_is_some_after_decode() {
    let mut s = Store::new(DEFAULT_CAP_BYTES);
    let (_pending, image_id) = s.request_insert(make_png(4, 4), 100, 5 * SEC, None, 0);
    assert!(s.preview(image_id).is_none());
    let results = settle(&mut s, MS);
    assert_eq!(results.len(), 1);
    assert!(results[0].1.is_ok());
    let preview = s.preview(image_id).expect("preview should land");
    assert!(preview.width >= 1 && preview.height >= 1);
}

#[test]
fn store_preview_is_none_for_unknown_id() {
    let s = Store::new(DEFAULT_CAP_BYTES);
    assert!(s.preview(ImageId(1)).is_none());
    assert!(s.preview(ImageId(99_999)).is_none());
}

#[test]
fn store_preview_dropped_when_retain_evicts() {
    let mut s = Store::new(DEFAULT_CAP_BYTES);
    let (_pid, image_id) = s.request_insert(make_png(2, 2), 100, 5 * SEC, None, 0);
    let results = settle(&mut s, MS);
    assert_eq!(results.len(), 1);
    assert!(s.preview(image_id).is_some());
    s.retain(&HashSet::new());
    assert!(s.preview(image_id).is_none());
}

#[test]
fn halfblock_cells_end_to_end_against_store_preview() {
    let mut s = Store::new(DEFAULT_CAP_BYTES);
    let (_pid, image_id) = s.request_insert(make_png(8, 8), 100, 5 * SEC, None, 0);
    let results = settle(&mut s, MS);
    assert_eq!(results.len(), 1);
    assert!(results[0].1.is_ok());
    let preview = s.preview(image_id).expect("preview built");
    let cells = halfblock_cells(preview, 3, 4);
    assert_eq!(cells.len(), 12);
    let red = Rgba { r: 255, g: 0, b: 0, a: 255 };
    for c in cells {
        assert_eq!(c.fg, red);
        assert_eq!(c.bg, red);
    }
}

#[test]
fn request_insert_with_empty_bytes_surfaces_decode_error() {
    let mut s = Store::new(DEFAULT_CAP_BYTES);
    let (pending, _id) = s.request_insert(Vec::new(), 100, 5 * SEC, None, 0);
    let results = settle(&mut s, MS);
    assert_eq!(results.len(), 1);
    assert_eq!(results[0].0, pending);
    assert!(matches!(results[0].1, Err(DecodeError::Decode(_))));
    assert!(s.is_empty());
}

#[test]
fn is_pending_returns_false_for_unknown_id() {
    let s = Store::new(DEFAULT_CAP_BYTES);
    assert!(!s.is_pending(ImageId(1)));
    assert!(!s.is_pending(ImageId(99_999)));
}

#[test]
fn is_pending_returns_false_after_decode_completes() {
    let mut s = Store::new(DEFAULT_CAP_BYTES);
    let (_pending, image_id) = s.request_insert(make_png(2, 2), 100, 5 * SEC, None, 0);
    assert!(s.is_pending(image_id));
    let results = settle(&mut s, MS);
    assert_eq!(results.len(), 1);
    assert!(results[0].1.is_ok());
    assert!(!s.is_pending(image_id));
}

#[test]
fn is_pending_returns_false_after_retain_drops_reservation() {
    let mut s = Store::new(DEFAULT_CAP_BYTES);
    let (_pending, image_id) = s.request_insert(make_png(2, 2), 100, 5 * SEC, None, 0);
    assert!(s.is_pending(image_id));
    s.retain(&HashSet::new());
    assert!(!s.is_pending(image_id));
    assert!(!s.can_poll(0), "its pixels have nowhere to go");
}

#[test]
fn poll_cap_exact_upload_succeeds() {
    let mut s = Store::new(16);
    let (_pending, _reserved) = s.request_insert(make_png(2, 2), 100, 5 * SEC, None, 0);
    let results = settle(&mut s, MS);
    assert_eq!(results.len(), 1);
    assert!(results[0].1.is_ok(), "exact-fit upload must succeed");
    assert_eq!(s.bytes(), 16);
}

#[test]
fn poll_budget_eviction_leaves_total_bytes_zero() {
    let mut s = Store::new(32);
    let (_pending, _reserved) = s.request_insert(make_png(4, 4), 100, 5 * SEC, None, 0);
    let results = settle(&mut s, MS);
    assert_eq!(results.len(), 1);
    assert!(matches!(results[0].1, Err(DecodeError::BudgetExceeded { .. })));
    assert_eq!(s.bytes(), 0, "evicted reservation must not inflate byte count");
    assert!(s.is_empty());
}

#[test]
fn an_id_in_flight_is_not_handed_out_again() {
    let mut s = Store::new(DEFAULT_CAP_BYTES);
    assert!(s.can_reserve());
    let (_, id) = s.request_insert(make_png(2, 2), 100, 5 * SEC, None, 0);
    assert!(s.can_reserve());
    s.next_id = id.0;
    assert!(!s.can_reserve());
    settle(&mut s, MS);
    assert!(s.can_reserve());
}

#[test]
fn undeliverable_result_is_told_apart() {
    let mut s = Store::new(DEFAULT_CAP_BYTES);
    let (pending, _) = s.request_insert(make_png(2, 2), 100, 5 * SEC, None, 0);
    let pixels = || DecodedPixels { rgba: vec![0; 16], width: 2, height: 2 };
    let result = DecodeResult { pending_id: pending.0, label: None, outcome: Ok(pixels()) };
    assert!(s.can_deliver(&result));
    s.retain(&HashSet::new());
    assert!(!s.can_deliver(&result));
    let other = DecodeResult { pending_id: 99, label: None, outcome: Ok(pixels()) };
    assert!(s.can_deliver(&other));
}

#[test]
fn request_insert_frame_appends_decoded_frame_to_parent() {
    let mut store = Store::new(DEFAULT_CAP_BYTES);
    let parent = make_frame_test_image(&mut store, (4, 4));
    assert_eq!(store.frame_count(parent), 0);
    let frame_png = png_of(2, 2, [200, 30, 30, 255]);
    let pid = store
        .request_insert_frame(
            parent,
            frame_png,
            100,
            5 * SEC,
            Some("test frame".into()),
            None,
            None,
            50,
            1,
            1,
            0,
        )
        .expect("parent exists");
    let results = settle(&mut store, MS);
    assert!(results.iter().any(|(id, _)| *id == pid));
    assert_eq!(store.frame_count(parent), 1);

    let entry = store.images.get(&parent.0).expect("parent still present");
    let f0 = &entry.frames[0];
    assert_eq!(&f0.rgba[0..4], &[0x55, 0x55, 0x55, 0x55]);
    let idx = ((1 * 4) + 1) * 4;
    assert_eq!(&f0.rgba[idx..idx + 4], &[200, 30, 30, 255]);
    assert_eq!(f0.delay_ms, 50);
    assert_eq!(f0.bytes, 128);
}

#[test]
fn request_insert_frame_drops_silently_for_unknown_parent() {
    let mut store = Store::new(DEFAULT_CAP_BYTES);
    let r = store.request_insert_frame(
        ImageId(999),
        vec![0u8; 8],
        100,
        5 * SEC,
        None,
        None,
        None,
        0,
        0,
        0,
        0,
    );
    assert!(r.is_none());
    assert_eq!(store.pending_count(), 0);
}

#[test]
fn apply_animation_control_make_current_clamps_and_stops() {
    let mut store = Store::new(DEFAULT_CAP_BYTES);
    let parent = make_frame_test_image(&mut store, (2, 2));
    for _ in 0..3 {
        push_frame(&mut store, parent, vec![0u8; 16], 100);
    }
    store.apply_animation_control(parent, None, None, Some(10), None, None, 0);
    let state = store.animation_state(parent).expect("present");
    assert_eq!(state.current_frame, 3);
    assert_eq!(state.play_mode, PlayMode::Stopped);
}

#[test]
fn apply_animation_control_s3_v0_sets_loop_forever() {
    let mut store = Store::new(DEFAULT_CAP_BYTES);
    let parent = make_frame_test_image(&mut store, (2, 2));
    store.apply_animation_control(parent, Some(3), Some(0), None, None, None, 0);
    let state = store.animation_state(parent).expect("present");
    assert_eq!(state.play_mode, PlayMode::LoopForever);
}

#[allow(non_snake_case)]
#[test]
fn apply_animation_control_s3_vN_sets_finite_loops() {
    let mut store = Store::new(DEFAULT_CAP_BYTES);
    let parent = make_frame_test_image(&mut store, (2, 2));
    store.apply_animation_control(parent, Some(3), Some(5), None, None, None, 0);
    let state = store.animation_state(parent).expect("present");
    assert_eq!(state.play_mode, PlayMode::LoopFinite { remaining: 5 });
}

#[test]
fn resolve_current_frame_static_image_returns_zero() {
    let mut store = Store::new(DEFAULT_CAP_BYTES);
    let parent = make_frame_test_image(&mut store, (2, 2));
    let entry = store.images.get(&parent.0).expect("parent");
    assert_eq!(resolve_current_frame(entry, 0), 0);
    assert_eq!(resolve_current_frame(entry, 60 * SEC), 0);
}

#[test]
fn resolve_current_frame_advances_through_timeline_with_loop_forever() {
    let mut store = Store::new(DEFAULT_CAP_BYTES);
    let parent = make_frame_test_image(&mut store, (2, 2));
    for _ in 0..2 {
        push_frame(&mut store, parent, vec![0u8; 16], 100);
    }
    store.images.get_mut(&parent.0).expect("parent").base_delay_ms = 100;
    let t0 = 7 * SEC;
    store.force_animation_state_for_test(
        parent,
        AnimationState {
            play_mode: PlayMode::LoopForever,
            current_frame: 0,
            current_frame_started: t0,
        },
    );
    let entry = store.images.get(&parent.0).expect("parent");
    assert_eq!(resolve_current_frame(entry, t0 + 50 * MS), 0);
    assert_eq!(resolve_current_frame(entry, t0 + 150 * MS), 1);
    assert_eq!(resolve_current_frame(entry, t0 + 250 * MS), 2);
    assert_eq!(resolve_current_frame(entry, t0 + 350 * MS), 0);
    assert_eq!(resolve_current_frame(entry, t0 + 700 * MS), 1);
}

#[test]
fn resolve_current_frame_loop_finite_stops_on_last_after_exhausting() {
    let mut store = Store::new(DEFAULT_CAP_BYTES);
    let parent = make_frame_test_image(&mut store, (2, 2));
    for _ in 0..2 {
        push_frame(&mut store, parent, vec![0u8; 16], 100);
    }
    store.images.get_mut(&parent.0).expect("parent").base_delay_ms = 100;
    let t0 = 7 * SEC;
    store.force_animation_state_for_test(
        parent,
        AnimationState {
            play_mode: PlayMode::LoopFinite { remaining: 1 },
            current_frame: 0,
            current_frame_started: t0,
        },
    );
    let entry = store.images.get(&parent.0).expect("parent");
    assert_eq!(resolve_current_frame(entry, t0 + 500 * MS), 2);
    assert_eq!(resolve_current_frame(entry, t0 + 5 * SEC), 2);
}

#[test]
fn two_rounds_play_twice_and_stop() {
    let mut store = Store::new(DEFAULT_CAP_BYTES);
    let parent = make_frame_test_image(&mut store, (2, 2));
    push_frame(&mut store, parent, vec![0u8; 16], 100);
    store.images.get_mut(&parent.0).expect("parent").base_delay_ms = 100;
    store.force_animation_state_for_test(
        parent,
        AnimationState {
            play_mode: PlayMode::LoopFinite { remaining: 2 },
            current_frame: 0,
            current_frame_started: 0,
        },
    );
    let entry = store.images.get(&parent.0).expect("parent");
    assert_eq!(resolve_current_frame(entry, 150 * MS), 1);
    assert_eq!(resolve_current_frame(entry, 250 * MS), 0);
    assert_eq!(resolve_current_frame(entry, 350 * MS), 1);
    assert_eq!(resolve_current_frame(entry, 450 * MS), 1);
    assert_eq!(resolve_current_frame(entry, 60 * SEC), 1);
}

#[test]
fn next_frame_deadline_none_for_stopped_image() {
    let mut store = Store::new(DEFAULT_CAP_BYTES);
    let _parent = make_frame_test_image(&mut store, (2, 2));
    assert!(store.next_frame_deadline(0).is_none());
}

#[test]
fn next_frame_deadline_reflects_running_image() {
    let mut store = Store::new(DEFAULT_CAP_BYTES);
    let parent = make_frame_test_image(&mut store, (2, 2));
    push_frame(&mut store, parent, vec![0u8; 16], 80);
    store.images.get_mut(&parent.0).expect("parent").base_delay_ms = 80;
    let t0 = 7 * SEC;
    store.force_animation_state_for_test(
        parent,
        AnimationState {
            play_mode: PlayMode::LoopForever,
            current_frame: 0,
            current_frame_started: t0,
        },
    );
    let dl = store.next_frame_deadline(t0).expect("animating");
    assert!(dl >= (t0 + 70 * MS) as u128);
    assert!(dl <= (t0 + 90 * MS) as u128);
    assert_eq!(dl, (t0 + 80 * MS) as u128);
}

#[test]
fn peek_at_returns_base_for_static_image() {
    let mut store = Store::new(DEFAULT_CAP_BYTES);
    let parent = make_frame_test_image(&mut store, (2, 2));
    let a = store.peek_at(parent, 0).map(|g| g.width_px);
    let b = store.peek(parent).map(|g| g.width_px);
    assert_eq!(a, b);
    assert_eq!(a, Some(2));
}

#[test]
fn request_insert_frame_returns_parent_not_ready_for_in_flight_base() {
    let mut store = Store::new(DEFAULT_CAP_BYTES);
    let (base, parent) =
        store.request_insert_animatable(make_png(2, 2), 100, 60 * SEC, None, 0);
    let pid = store
        .request_insert_frame(
            parent,
            make_png(1, 1),
            100,
            5 * SEC,
            None,
            None,
            None,
            10,
            0,
            0,
            0,
        )
        .expect("parent reservation exists");
    let mut results: Vec<DecodeResult> = store.take_jobs().into_iter().map(run_decode_job).collect();
    results.reverse();
    let outcomes = store.poll(results, false, MS).outcomes;
    assert_eq!(outcomes[0].0, pid);
    assert!(matches!(outcomes[0].1, Err(DecodeError::ParentNotReady)));
    assert_eq!(outcomes[1].0, base);
    assert!(outcomes[1].1.is_ok());
}

#[test]
fn finish_frame_decode_replacing_existing_frame_keeps_byte_accounting_consistent() {
    let mut store = Store::new(DEFAULT_CAP_BYTES);
    let parent = make_frame_test_image(&mut store, (2, 2));
    let frame_png = png_of(1, 1, [10, 20, 30, 255]);
    let pid = store
        .request_insert_frame(
            parent,
            frame_png.clone(),
            100,
            5 * SEC,
            None,
            None,
            None,
            0,
            0,
            0,
            0,
        )
        .expect("parent exists");
    assert!(settle(&mut store, MS).iter().any(|(id, _)| *id == pid));
    let bytes_after_first = store.bytes();
    let parent_bytes_after_first = store.images.get(&parent.0).expect("parent").bytes;
    assert_eq!(bytes_after_first, 16 + 32);

    for _ in 0..2 {
        let pid = store
            .request_insert_frame(
                parent,
                frame_png.clone(),
                100,
                5 * SEC,
                None,
                Some(2),
                None,
                0,
                0,
                0,
                0,
            )
            .expect("parent exists");
        assert!(settle(&mut store, MS).iter().any(|(id, _)| *id == pid));
    }
    assert_eq!(store.frame_count(parent), 1, "still exactly one frame");
    assert_eq!(store.bytes(), bytes_after_first);
    assert_eq!(
        store.images.get(&parent.0).expect("parent").bytes,
        parent_bytes_after_first,
    );
    let mut keep = HashSet::new();
    keep.insert(parent.0);
    store.retain(&keep);
    assert_eq!(store.bytes(), bytes_after_first);
}

#[test]
fn apply_animation_control_unknown_id_is_silent_noop() {
    let mut store = Store::new(DEFAULT_CAP_BYTES);
    store.apply_animation_control(ImageId(9999), Some(3), Some(0), None, None, None, 0);
    assert_eq!(store.len(), 0);
}

#[test]
fn apply_animation_control_s2_sets_run_while_loading() {
    let mut store = Store::new(DEFAULT_CAP_BYTES);
    let parent = make_frame_test_image(&mut store, (2, 2));
    store.apply_animation_control(parent, Some(2), None, None, None, None, 0);
    assert_eq!(store.animation_state(parent).unwrap().play_mode, PlayMode::RunWhileLoading);
}

#[test]
fn apply_animation_control_unknown_s_value_leaves_play_mode_unchanged() {
    let mut store = Store::new(DEFAULT_CAP_BYTES);
    let parent = make_frame_test_image(&mut store, (2, 2));
    store.apply_animation_control(parent, Some(2), None, None, None, None, 0);
    store.apply_animation_control(parent, Some(99), None, None, None, None, 5);
    assert_eq!(
        store.animation_state(parent).unwrap().play_mode,
        PlayMode::RunWhileLoading,
        "unknown control op leaves play_mode unchanged",
    );
}

#[test]
fn apply_animation_control_edits_frame_gap() {
    let mut store = Store::new(DEFAULT_CAP_BYTES);
    let parent = make_frame_test_image(&mut store, (2, 2));
    for _ in 0..2 {
        push_frame(&mut store, parent, vec![0u8; 16], 100);
    }
    store.apply_animation_control(parent, None, None, None, Some(2), Some(250), 0);
    assert_eq!(store.images.get(&parent.0).expect("parent").frames[0].delay_ms, 250);
    assert_eq!(store.images.get(&parent.0).expect("parent").frames[1].delay_ms, 100);
}

#[test]
fn apply_animation_control_r1_sets_base_delay_without_touching_frames() {
    let mut store = Store::new(DEFAULT_CAP_BYTES);
    let parent = make_frame_test_image(&mut store, (2, 2));
    push_frame(&mut store, parent, vec![0u8; 16], 77);
    store.apply_animation_control(parent, None, None, None, Some(1), Some(250), 0);
    let entry = store.images.get(&parent.0).expect("parent");
    assert_eq!(entry.base_delay_ms, 250, "r=1 writes the base's delay");
    assert_eq!(entry.frames[0].delay_ms, 77, "r=1 leaves frames[0] alone");
}

#[test]
fn apply_animation_control_make_current_n1_pins_base() {
    let mut store = Store::new(DEFAULT_CAP_BYTES);
    let parent = make_frame_test_image(&mut store, (2, 2));
    for _ in 0..2 {
        push_frame(&mut store, parent, vec![0u8; 16], 100);
    }
    store.apply_animation_control(parent, None, None, Some(1), None, None, 0);
    let s = store.animation_state(parent).unwrap();
    assert_eq!(s.current_frame, 0);
    assert_eq!(s.play_mode, PlayMode::Stopped);
}

#[test]
fn apply_animation_control_make_current_takes_priority_over_control() {
    let mut store = Store::new(DEFAULT_CAP_BYTES);
    let parent = make_frame_test_image(&mut store, (2, 2));
    push_frame(&mut store, parent, vec![0u8; 16], 100);
    store.apply_animation_control(parent, Some(3), Some(0), Some(2), None, None, 0);
    let s = store.animation_state(parent).unwrap();
    assert_eq!(s.play_mode, PlayMode::Stopped, "make_current wins over control");
    assert_eq!(s.current_frame, 1);
}

#[test]
fn peek_at_returns_frame_image_when_advanced_past_base() {
    let mut store = Store::new(DEFAULT_CAP_BYTES);
    let parent = make_frame_test_image(&mut store, (2, 2));
    push_frame(&mut store, parent, vec![0u8; 16], 100);
    store.apply_animation_control(parent, None, None, Some(2), None, None, 0);
    let got = store.peek_at(parent, 0).map(|g| g.width_px);
    assert_eq!(got, Some(4));
}

#[test]
fn next_frame_deadline_returns_earliest_across_multiple_animating_images() {
    let mut store = Store::new(DEFAULT_CAP_BYTES);
    let slow = make_frame_test_image(&mut store, (2, 2));
    let fast = make_frame_test_image(&mut store, (2, 2));
    for (parent, delay) in [(slow, 200u32), (fast, 50u32)] {
        push_frame(&mut store, parent, vec![0u8; 16], delay);
        store.images.get_mut(&parent.0).expect("parent").base_delay_ms = delay;
    }
    let t0 = 7 * SEC;
    for parent in [slow, fast] {
        store.force_animation_state_for_test(
            parent,
            AnimationState {
                play_mode: PlayMode::LoopForever,
                current_frame: 0,
                current_frame_started: t0,
            },
        );
    }
    let dl = store.next_frame_deadline(t0).expect("animating");
    assert!(dl >= (t0 + 40 * MS) as u128);
    assert!(dl <= (t0 + 60 * MS) as u128);
}

fn insert_png_frame(
    store: &mut Store,
    parent: ImageId,
    png: Vec<u8>,
    compose_base: Option<u32>,
    dst: (u32, u32),
) {
    let pid = store
        .request_insert_frame(
            parent,
            png,
            100,
            5 * SEC,
            None,
            None,
            compose_base,
            0,
            dst.0,
            dst.1,
            0,
        )
        .expect("parent exists");
    assert!(settle(store, MS).iter().any(|(id, _)| *id == pid));
}

#[test]
fn request_insert_frame_compose_base_n_uses_prior_frame_rgba() {
    let mut store = Store::new(DEFAULT_CAP_BYTES);
    let parent = make_frame_test_image(&mut store, (2, 2));
    let frame2_rgba = vec![7u8; 2 * 2 * 4];
    push_frame(&mut store, parent, frame2_rgba.clone(), 100);
    insert_png_frame(&mut store, parent, png_of(1, 1, [0, 0, 0, 0]), Some(2), (0, 0));
    let entry = store.images.get(&parent.0).expect("parent");
    assert_eq!(entry.frames[1].rgba, frame2_rgba);
}

#[test]
fn request_insert_frame_compose_base_none_uses_previous_frame() {
    let mut store = Store::new(DEFAULT_CAP_BYTES);
    let parent = make_frame_test_image(&mut store, (2, 2));
    let prev_rgba = vec![42u8; 2 * 2 * 4];
    push_frame(&mut store, parent, prev_rgba.clone(), 100);
    insert_png_frame(&mut store, parent, png_of(1, 1, [0, 0, 0, 0]), None, (0, 0));
    let entry = store.images.get(&parent.0).expect("parent");
    assert_eq!(
        entry.frames[1].rgba, prev_rgba,
        "omitted c= must compose against the previous frame, not the base",
    );
}

#[test]
fn request_insert_frame_compose_base_none_falls_back_to_base_for_first_frame() {
    let mut store = Store::new(DEFAULT_CAP_BYTES);
    let parent = make_frame_test_image(&mut store, (2, 2));
    insert_png_frame(&mut store, parent, png_of(1, 1, [0, 0, 0, 0]), None, (0, 0));
    let entry = store.images.get(&parent.0).expect("parent");
    let expected = vec![0x55u8; 2 * 2 * 4];
    assert_eq!(
        entry.frames[0].rgba, expected,
        "first a=f with no previous frame falls back to base",
    );
}

#[test]
fn request_insert_animatable_rgba_skips_worker_and_resolves_on_next_poll() {
    let mut store = Store::new(DEFAULT_CAP_BYTES);
    let rgba = vec![0x77u8; 4 * 4 * 4];
    let (pid, _) = store.request_insert_animatable_rgba(rgba, 4, 4, None, 0);
    assert_eq!(store.pending_count(), 1, "reservation tracked");
    assert!(store.take_jobs().is_empty());
    let results = store.poll(Vec::new(), false, 0).outcomes;
    assert!(
        results.iter().any(|(p, _)| *p == pid),
        "bypass entry resolves on the very next poll",
    );
    assert_eq!(store.pending_count(), 0);
    assert_eq!(store.bytes(), 128, "texture and kept pixels are charged");
}

#[test]
fn request_insert_frame_rgba_skips_worker_and_resolves_on_next_poll() {
    let mut store = Store::new(DEFAULT_CAP_BYTES);
    let parent = make_frame_test_image(&mut store, (2, 2));
    let rgba = vec![0u8; 2 * 2 * 4];
    let pid = store
        .request_insert_frame_rgba(parent, rgba, 2, 2, None, None, None, 50, 0, 0, 0)
        .expect("parent exists");
    let results = store.poll(Vec::new(), false, 0).outcomes;
    assert!(results.iter().any(|(p, _)| *p == pid));
    assert_eq!(store.frame_count(parent), 1);
}

#[test]
fn request_insert_frame_full_size_no_c_overwrites_instead_of_blending() {
    let mut store = Store::new(DEFAULT_CAP_BYTES);
    let parent = make_frame_test_image(&mut store, (2, 2));
    push_frame(&mut store, parent, vec![0xCCu8; 2 * 2 * 4], 100);
    insert_png_frame(&mut store, parent, png_of(2, 2, [0, 0, 0, 0]), None, (0, 0));
    let entry = store.images.get(&parent.0).expect("parent");
    assert_eq!(
        entry.frames[1].rgba,
        vec![0u8; 2 * 2 * 4],
        "full-size frame at (0,0) with no c= must overwrite, not blend with prior",
    );
}

#[test]
fn request_insert_frame_partial_size_still_blends_against_previous() {
    let mut s = Store::new(DEFAULT_CAP_BYTES);
    let parent = make_frame_test_image(&mut s, (4, 4));
    push_frame(&mut s, parent, vec![0xCCu8; 4 * 4 * 4], 100);
    insert_png_frame(&mut s, parent, png_of(2, 2, [0, 0, 0, 0]), None, (1, 1));
    let entry = s.images.get(&parent.0).expect("parent");
    assert_eq!(
        entry.frames[1].rgba,
        vec![0xCCu8; 4 * 4 * 4],
        "partial frame with transparent payload preserves prior frame",
    );
}

#[test]
fn failed_frame_leaves_the_image() {
    let mut s = Store::new(DEFAULT_CAP_BYTES);
    let parent = make_frame_test_image(&mut s, (2, 2));
    insert_png_frame(&mut s, parent, b"broken".to_vec(), None, (0, 0));
    assert_eq!(s.frame_count(parent), 0);
    assert!(s.peek(parent).is_some());
}

fn running(mode: PlayMode, base_ms: u32, frame_ms: u32) -> (Store, ImageId) {
    let mut store = Store::new(DEFAULT_CAP_BYTES);
    let parent = make_frame_test_image(&mut store, (2, 2));
    push_frame(&mut store, parent, vec![0u8; 16], frame_ms);
    store.images.get_mut(&parent.0).expect("parent").base_delay_ms = base_ms;
    store.force_animation_state_for_test(
        parent,
        AnimationState { play_mode: mode, current_frame: 0, current_frame_started: SEC },
    );
    (store, parent)
}

#[test]
fn endless_playback_goes_on() {
    for mode in [PlayMode::LoopForever, PlayMode::RunWhileLoading] {
        let (store, parent) = running(mode, 1, 1);
        let entry = store.images.get(&parent.0).expect("parent");
        for ms in [0u64, 1, 2, 1040, 1041, 1042, 2000, 2001, 86_400_000, 86_400_001] {
            let shown = resolve_current_frame(entry, SEC + ms * MS);
            assert_eq!(shown as u64, ms % 2, "after {ms} ms");
        }
        assert_eq!(resolve_current_frame(entry, 0), 0, "a stale clock shows the start");
        assert!(resolve_current_frame(entry, u64::MAX) < 2);
    }
    let (store, parent) = running(PlayMode::LoopForever, 30, 70);
    let entry = store.images.get(&parent.0).expect("parent");
    assert_eq!(resolve_current_frame(entry, SEC + 100_000_029 * MS), 0);
    assert_eq!(resolve_current_frame(entry, SEC + 100_000_030 * MS), 1);
}

#[test]
fn deadline_is_the_next_advance() {
    let (store, _) = running(PlayMode::LoopForever, 80, 80);
    let at = |ms: u64| Some((SEC + ms * MS) as u128);
    assert_eq!(store.next_frame_deadline(SEC), at(80));
    assert_eq!(store.next_frame_deadline(SEC + 79 * MS), at(80));
    assert_eq!(store.next_frame_deadline(SEC + 80 * MS), at(160));
    assert_eq!(store.next_frame_deadline(SEC + 100 * MS), at(160));
    assert_eq!(store.next_frame_deadline(SEC + 16_000_001 * MS), at(16_000_080));
    assert_eq!(store.next_frame_deadline(0), at(80));
}

#[test]
fn ended_loop_has_no_deadline() {
    let (store, _) = running(PlayMode::LoopFinite { remaining: 2 }, 80, 80);
    assert_eq!(store.next_frame_deadline(SEC + 200 * MS), Some((SEC + 240 * MS) as u128));
    assert_eq!(store.next_frame_deadline(SEC + 240 * MS), None);
    assert_eq!(store.next_frame_deadline(SEC + 60 * SEC), None);
}

#[test]
fn late_frame_takes_its_image_and_the_bytes() {
    let mut s = Store::new(DEFAULT_CAP_BYTES);
    let (_, id) = s.request_insert_animatable(make_png(2, 2), 100, 5 * SEC, None, 0);
    assert!(settle(&mut s, 1)[0].1.is_ok());
    assert_eq!(s.bytes(), 32);
    let kept = insert_filled(&mut s, 2, 2, 16);
    assert_eq!(s.bytes(), 48);
    let frame = s
        .request_insert_frame(id, make_png(2, 2), 100, 0, None, None, None, 10, 0, 0, 1)
        .expect("parent is there");
    let polled = s.poll(Vec::new(), false, 1 + 3 * MS);
    assert_eq!(polled.outcomes.len(), 1);
    assert_eq!(polled.outcomes[0].0, frame);
    assert!(matches!(polled.outcomes[0].1, Err(DecodeError::TimedOut { elapsed_ms: 3 })));
    assert!(s.peek(id).is_none());
    assert!(s.peek(kept).is_some());
    assert_eq!(s.bytes(), 16);
    assert_eq!(s.bytes(), s.images.values().map(|e| e.bytes).sum::<usize>());
}

#[test]
fn reused_id_gives_its_bytes_back() {
    let mut s = Store::new(DEFAULT_CAP_BYTES);
    let id = insert_filled(&mut s, 2, 2, 16);
    s.next_id = id.0;
    assert!(s.can_reserve());
    s.request_insert(make_png(2, 2), 100, SEC, None, 0);
    assert_eq!(s.bytes(), 0);
    assert!(s.is_pending(id));
}

fn crc32(bytes: &[u8]) -> u32 {
    let mut crc = !0u32;
    for b in bytes {
        crc ^= *b as u32;
        for _ in 0..8 {
            crc = if crc & 1 == 1 { (crc >> 1) ^ 0xedb8_8320 } else { crc >> 1 };
        }
    }
    !crc
}

fn chunk(name: &[u8; 4], data: &[u8]) -> Vec<u8> {
    let mut body = name.to_vec();
    body.extend_from_slice(data);
    let mut out = (data.len() as u32).to_be_bytes().to_vec();
    out.extend_from_slice(&body);
    out.extend_from_slice(&crc32(&body).to_be_bytes());
    out
}

/// A PNG of one pixel with the given colour type, colour table and row.
fn tiny_png(color_type: u8, palette: &[u8], row: &[u8]) -> Vec<u8> {
    let mut bytes = vec![0x89, 0x50, 0x4e, 0x47, 0x0d, 0x0a, 0x1a, 0x0a];
    bytes.extend(chunk(b"IHDR", &[0, 0, 0, 1, 0, 0, 0, 1, 8, color_type, 0, 0, 0]));
    bytes.extend(chunk(b"PLTE", palette));
    let mut raw = vec![0u8];
    raw.extend_from_slice(row);
    let (mut a, mut b) = (1u32, 0u32);
    for x in &raw {
        a = (a + *x as u32) % 65_521;
        b = (b + a) % 65_521;
    }
    let n = raw.len() as u16;
    let mut zlib = vec![0x78, 0x01, 1];
    zlib.extend_from_slice(&n.to_le_bytes());
    zlib.extend_from_slice(&(!n).to_le_bytes());
    zlib.extend_from_slice(&raw);
    zlib.extend_from_slice(&((b << 16) | a).to_be_bytes());
    bytes.extend(chunk(b"IDAT", &zlib));
    bytes.extend(chunk(b"IEND", &[]));
    bytes
}

#[test]
fn colour_tables_are_read() {
    let png = tiny_png(3, &[1, 2, 3, 4, 5, 6], &[1]);
    assert!(has_sound_palette(&png));
    let (rgba, w, h) = decode_to_rgba(&png, 10).expect("an indexed image");
    assert_eq!((w, h), (1, 1));
    assert_eq!(rgba, vec![4, 5, 6, 255]);
}

#[test]
fn broken_colour_tables_are_refused() {
    for length in [1usize, 2, 4, 767, 769, 771] {
        let png = tiny_png(3, &vec![9; length], &[0]);
        assert!(!has_sound_palette(&png), "{length} bytes");
        assert_eq!(peek_dimensions(&png), Some((1, 1)));
        assert!(matches!(decode_to_rgba(&png, 10), Err(DecodeError::Decode(_))));
        // So is one with a second defect: a checksum, or pixels that are cut off.
        let mut wrong_sum = png.clone();
        wrong_sum[40 + 1 + length] ^= 1;
        assert_eq!(peek_dimensions(&wrong_sum), None);
        assert!(matches!(decode_to_rgba(&wrong_sum, 10), Err(DecodeError::Decode(_))));
        let cut = &png[..png.len() - 24];
        assert!(matches!(decode_to_rgba(cut, 10), Err(DecodeError::Decode(_))));
    }
    assert!(has_sound_palette(&tiny_png(3, &vec![9; 768], &[0])));
    // Only indices look at the table.
    let png = tiny_png(2, &[9; 4], &[7, 8, 9]);
    assert_eq!(decode_to_rgba(&png, 10).expect("not indexed").0, vec![7, 8, 9, 255]);
    let refused = decode_to_rgba(&tiny_png(3, &[9; 4], &[0]), 10).expect_err("bad table");
    assert!(refused.describe().starts_with("decode failed: "));
    assert!(refused.describe().ends_with("bad colour table"));
}

#[test]
fn other_formats_are_refused() {
    let mut webp = b"RIFF\x1a\0\0\0WEBPVP8L".to_vec();
    webp.extend_from_slice(&[0; 30]);
    assert_eq!(peek_dimensions(&webp), None);
    assert!(matches!(decode_to_rgba(&webp, 10), Err(DecodeError::Decode(_))));
}
