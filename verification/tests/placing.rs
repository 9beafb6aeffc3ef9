use yutani::images::decode::DecodeError;
use yutani::images::model::{DecodeResult, ImageId};
use yutani::images::placing::{
    should_rearm_image_poll, suppress_deferred_placement, ControlSpec, FrameSpec, GridOrder,
    ImageUpload, Placement, TabImages,
};
use yutani::images::entry::PlayMode;
use yutani::images::store::run_decode_job;

const SEC: u64 = 1_000_000_000;

fn png(w: u32, h: u32) -> Vec<u8> {
    let buf = image::RgbaImage::from_pixel(w, h, image::Rgba([1, 2, 3, 255]));
    let mut bytes: Vec<u8> = Vec::new();
    image::DynamicImage::ImageRgba8(buf)
        .write_to(&mut std::io::Cursor::new(&mut bytes), image::ImageOutputFormat::Png)
        .expect("encode");
    bytes
}

fn upload(bytes: Vec<u8>) -> ImageUpload {
    ImageUpload {
        bytes,
        label: None,
        raw_rgba_dims: None,
        kitty_image_id: None,
        kitty_placement_id: None,
        animation_control: None,
        animation_frame: None,
        display_immediately: true,
        cell_anchor: (3, 5),
        cell_extent: (2, 4),
        z_index: -1,
        pixel_offset: (1, 2),
        src_rect: None,
    }
}

fn decoded(tab: &mut TabImages) -> Vec<DecodeResult> {
    tab.store.take_jobs().into_iter().map(run_decode_job).collect()
}

#[test]
fn displayed_payload_is_placed_at_once() {
    let mut tab = TabImages::new(1 << 20);
    let drained = tab.take_uploads(vec![upload(png(2, 2))], true, 100, SEC, 0);
    assert_eq!(drained.taken, 1);
    assert!(drained.redraw);
    assert_eq!(drained.orders.len(), 1);
    match drained.orders[0] {
        GridOrder::Place(p) => {
            assert_eq!(p.image_id, ImageId(1));
            assert_eq!((p.row, p.col, p.rows, p.cols), (3, 5, 2, 4));
            assert_eq!((p.z_index, p.pixel_offset), (-1, (1, 2)));
        }
        other => panic!("unexpected order: {other:?}"),
    }
    assert_eq!(tab.pending[0].preplaced_image_id, Some(ImageId(1)));

    let results = decoded(&mut tab);
    let effect = tab.poll_pending(results, false, 16, 8, 1);
    assert!(effect.placed && effect.rearm);
    assert!(effect.orders.is_empty(), "it is placed already");
    assert!(tab.pending.is_empty());
    assert_eq!(effect.uploads.len(), 1);
}

#[test]
fn deferred_image_is_placed_with_the_cells_it_covers() {
    let mut tab = TabImages::new(1 << 20);
    tab.load_at_cell(png(17, 33), 1000, SEC, "debug".into(), 7, 9, 0);
    let results = decoded(&mut tab);
    let effect = tab.poll_pending(results, false, 16, 8, 1);
    assert_eq!(effect.orders.len(), 1);
    match effect.orders[0] {
        GridOrder::Place(p) => {
            assert_eq!((p.row, p.col), (7, 9));
            assert_eq!((p.rows, p.cols), (3, 3));
            assert_eq!(p.z_index, 0);
        }
        other => panic!("unexpected order: {other:?}"),
    }
    assert!(effect.placed);
}

#[test]
fn failed_decode_removes_the_placement() {
    let mut tab = TabImages::new(1 << 20);
    tab.take_uploads(vec![upload(b"broken".to_vec())], true, 100, SEC, 0);
    let results = decoded(&mut tab);
    let effect = tab.poll_pending(results, false, 16, 8, 1);
    assert_eq!(effect.orders, vec![GridOrder::Remove(ImageId(1))]);
    assert!(matches!(effect.failures[0], DecodeError::Decode(_)));
    assert!(!effect.placed);
}

#[test]
fn failed_deferred_decode_only_reports() {
    let mut tab = TabImages::new(1 << 20);
    tab.load_at_cell(b"broken".to_vec(), 1000, SEC, "debug".into(), 0, 0, 0);
    let results = decoded(&mut tab);
    let effect = tab.poll_pending(results, false, 16, 8, 1);
    assert!(effect.orders.is_empty());
    assert_eq!(effect.failures.len(), 1);
}

#[test]
fn named_image_is_found_again_by_frames_and_controls() {
    let mut tab = TabImages::new(1 << 20);
    let mut base = upload(vec![9; 16]);
    base.raw_rgba_dims = Some((2, 2));
    base.kitty_image_id = Some(77);
    base.display_immediately = false;
    let mut frame = upload(vec![8; 16]);
    frame.raw_rgba_dims = Some((2, 2));
    frame.kitty_image_id = Some(77);
    frame.animation_frame = Some(FrameSpec {
        target_slot: None,
        compose_base: None,
        gap_ms: 30,
        dst_x: 0,
        dst_y: 0,
    });
    let mut control = upload(Vec::new());
    control.kitty_image_id = Some(77);
    control.animation_control = Some(ControlSpec {
        control: Some(3),
        loop_count: None,
        make_current: None,
        edit_frame: None,
        edit_gap_ms: None,
    });
    let drained = tab.take_uploads(vec![base, frame, control], true, 100, SEC, 0);
    assert_eq!(drained.taken, 3);
    assert!(drained.orders.is_empty(), "transmitted only");
    assert_eq!(tab.pending.len(), 1);
    let effect = tab.poll_pending(Vec::new(), false, 16, 8, 1);
    assert!(effect.orders.is_empty());
    let id = ImageId(1);
    assert_eq!(tab.store.frame_count(id), 1);
    assert_eq!(tab.store.images[&1].frames[0].delay_ms, 30);
    assert_eq!(tab.store.animation_state(id).unwrap().play_mode, PlayMode::LoopForever);
}

#[test]
fn frame_of_an_unknown_image_is_dropped() {
    let mut tab = TabImages::new(1 << 20);
    let mut frame = upload(vec![8; 16]);
    frame.kitty_image_id = Some(1);
    frame.animation_frame = Some(FrameSpec {
        target_slot: None,
        compose_base: None,
        gap_ms: 30,
        dst_x: 0,
        dst_y: 0,
    });
    let drained = tab.take_uploads(vec![frame], true, 100, SEC, 0);
    assert_eq!(drained.taken, 1);
    assert_eq!(tab.store.pending_count(), 0);
    assert!(drained.redraw);
}

#[test]
fn payloads_are_dropped_when_images_are_off() {
    let mut tab = TabImages::new(1 << 20);
    let drained = tab.take_uploads(vec![upload(png(2, 2))], false, 100, SEC, 0);
    assert_eq!((drained.taken, drained.redraw), (0, false));
    assert!(tab.store.is_empty() && tab.pending.is_empty());
}

#[test]
fn payloads_wait_when_no_id_is_free() {
    let mut tab = TabImages::new(1 << 20);
    tab.take_uploads(vec![upload(png(2, 2))], true, 100, SEC, 0);
    tab.store.next_id = 1;
    let drained = tab.take_uploads(vec![upload(png(2, 2))], true, 100, SEC, 0);
    assert_eq!(drained.taken, 0);
}

#[test]
fn timed_out_placement_goes() {
    let mut tab = TabImages::new(1 << 20);
    tab.take_uploads(vec![upload(png(2, 2))], true, 100, SEC, 0);
    let effect = tab.poll_pending(Vec::new(), false, 16, 8, 2 * SEC);
    assert_eq!(effect.orders, vec![GridOrder::Remove(ImageId(1))]);
    assert!(matches!(effect.failures[0], DecodeError::TimedOut { elapsed_ms: 2000 }));
}

#[test]
fn nothing_awaited_is_not_polled() {
    let mut tab = TabImages::new(1 << 20);
    let effect = tab.poll_pending(Vec::new(), false, 16, 8, 0);
    assert!(!effect.rearm && !effect.placed);
}

#[test]
fn loop_ticks_while_something_is_awaited() {
    assert!(!should_rearm_image_poll(true, true, 0));
    assert!(should_rearm_image_poll(false, true, 0));
    assert!(should_rearm_image_poll(true, false, 0));
    assert!(should_rearm_image_poll(true, true, 1));
}

#[test]
fn placed_and_named_images_suppress_a_placement() {
    assert!(suppress_deferred_placement(true, None));
    assert!(suppress_deferred_placement(false, Some(3)));
    assert!(!suppress_deferred_placement(false, None));
}

#[test]
fn sweep_keeps_what_is_in_use() {
    let mut tab = TabImages::new(1 << 20);
    for _ in 0..3 {
        tab.load_at_cell(png(2, 2), 1000, SEC, "debug".into(), 0, 0, 0);
    }
    let results = decoded(&mut tab);
    let effect = tab.poll_pending(results, false, 16, 8, 1);
    let shown: Vec<Placement> = effect
        .orders
        .iter()
        .filter_map(|o| match o {
            GridOrder::Place(p) if p.image_id == ImageId(1) => Some(*p),
            _ => None,
        })
        .collect();
    assert_eq!(shown.len(), 1);
    tab.kitty.insert(77, 2);
    tab.load_at_cell(png(2, 2), 1000, SEC, "debug".into(), 0, 0, 1);
    assert_eq!(tab.store.bytes(), 48);
    let keep = tab.sweep(&shown);
    assert_eq!(keep, [1, 2, 4].into_iter().collect());
    assert!(tab.store.peek(ImageId(1)).is_some(), "shown");
    assert!(tab.store.peek(ImageId(2)).is_some(), "named");
    assert!(tab.store.peek(ImageId(3)).is_none());
    assert!(tab.store.is_pending(ImageId(4)), "requested");
    assert_eq!(tab.store.bytes(), 32);
    assert!(tab.store.can_poll(2));
}

#[test]
fn sweep_decides_whether_a_decode_can_land() {
    let mut tab = TabImages::new(1 << 20);
    tab.load_at_cell(png(2, 2), 1000, SEC, "debug".into(), 0, 0, 0);
    let marked: std::collections::HashSet<u32> = [1].into_iter().collect();
    tab.store.retain(&marked);
    assert!(tab.store.can_poll(1));
    let results = decoded(&mut tab);
    let effect = tab.poll_pending(results, false, 16, 8, 1);
    assert_eq!(effect.orders.len(), 1);
    tab.store.retain(&marked);
    assert!(tab.store.peek(ImageId(1)).is_some(), "a marked image survives the sweep");

    tab.load_at_cell(png(2, 2), 1000, SEC, "debug".into(), 0, 0, 0);
    tab.store.retain(&marked);
    assert!(!tab.store.can_poll(1), "the awaited image is not reserved any more");
}
