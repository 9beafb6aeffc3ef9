use yutani::images::compose::composite_rgba;
use yutani::images::preview::{
    build_preview, halfblock_cells, preview_dimensions, Preview, Rgba, MAX_PREVIEW_COLS,
    MAX_PREVIEW_ROWS,
};

#[test]
fn build_preview_passes_through_when_image_fits_in_budget() {
    let mut src = Vec::with_capacity(4 * 4 * 4);
    for i in 0..16 {
        src.extend_from_slice(&[i as u8 * 17, 0, 0, 255]);
    }
    let p = build_preview(&src, 4, 4).expect("preview built");
    assert_eq!((p.width, p.height), (4, 4));
    assert_eq!(p.rgba, src);
}

#[test]
fn build_preview_downsamples_oversized_image_within_budget() {
    let w = 1000u32;
    let h = 500u32;
    let src = vec![128u8; (w as usize) * (h as usize) * 4];
    let p = build_preview(&src, w, h).expect("preview built");
    assert!(p.width <= MAX_PREVIEW_COLS);
    assert!(p.height <= MAX_PREVIEW_ROWS);
    assert!(p.width >= 1 && p.height >= 1);
    let ratio = (p.width as f32) / (p.height as f32);
    assert!((ratio - 2.0).abs() < 0.25, "aspect drifted: {ratio}");
    assert!(p.rgba.iter().all(|&b| b == 128));
}

#[test]
fn build_preview_is_deterministic_for_same_input() {
    let mut src = vec![0u8; 32 * 24 * 4];
    for (i, b) in src.iter_mut().enumerate() {
        *b = ((i * 7) % 256) as u8;
    }
    let a = build_preview(&src, 32, 24).unwrap();
    let b = build_preview(&src, 32, 24).unwrap();
    assert_eq!(a, b);
}

#[test]
fn build_preview_rejects_zero_dimensions() {
    let src = vec![0u8; 4];
    assert!(build_preview(&src, 0, 1).is_none());
    assert!(build_preview(&src, 1, 0).is_none());
}

#[test]
fn build_preview_rejects_undersized_buffer() {
    let src = vec![0u8; 4 * 4 * 4 - 1];
    assert!(build_preview(&src, 4, 4).is_none());
}

#[test]
fn preview_of_a_wide_image_has_its_exact_size() {
    assert_eq!(preview_dimensions(1000, 500), (160, 80));
    assert_eq!(preview_dimensions(320, 1), (160, 1));
    assert_eq!(preview_dimensions(1, 384), (1, 192));
    assert_eq!(preview_dimensions(160, 192), (160, 192));
}

#[test]
fn preview_size_agrees_with_single_precision() {
    for w in [1u32, 3, 159, 160, 161, 333, 1000, 4097, 65535, 16_777_217, u32::MAX] {
        for h in [1u32, 2, 191, 192, 193, 777, 2048, 40_000, 16_777_219, u32::MAX] {
            let sx = (MAX_PREVIEW_COLS as f32) / (w as f32);
            let sy = (MAX_PREVIEW_ROWS as f32) / (h as f32);
            let s = sx.min(sy).min(1.0);
            let pw = ((w as f32 * s).round() as u32).clamp(1, MAX_PREVIEW_COLS);
            let ph = ((h as f32 * s).round() as u32).clamp(1, MAX_PREVIEW_ROWS);
            assert_eq!(preview_dimensions(w, h), (pw, ph), "{w} x {h}");
        }
    }
}

#[test]
fn shrinking_averages_the_pixels() {
    let mut src = Vec::new();
    for x in 0..320u32 {
        let v = if x % 2 == 0 { 10 } else { 20 };
        src.extend_from_slice(&[v, v, v, 255]);
    }
    let p = build_preview(&src, 320, 1).expect("preview built");
    assert_eq!((p.width, p.height), (160, 1));
    assert_eq!(&p.rgba[0..4], &[15, 15, 15, 255]);
}

#[test]
fn halfblock_cells_emits_one_per_cell_with_correct_offsets() {
    let mut rgba = Vec::with_capacity(4 * 2 * 4);
    for i in 0..8 {
        rgba.extend_from_slice(&[i as u8 * 20, 0, 0, 255]);
    }
    let p = Preview { width: 2, height: 4, rgba };
    let cells = halfblock_cells(&p, 2, 2);
    assert_eq!(cells.len(), 4);
    let offsets: Vec<(u16, u16)> = cells.iter().map(|c| (c.row_offset, c.col_offset)).collect();
    assert_eq!(offsets, vec![(0, 0), (0, 1), (1, 0), (1, 1)]);
}

#[test]
fn halfblock_cells_top_pixel_drives_fg_bottom_drives_bg() {
    let rgba = vec![255, 0, 0, 255, 0, 0, 255, 255];
    let p = Preview { width: 1, height: 2, rgba };
    let cells = halfblock_cells(&p, 1, 1);
    assert_eq!(cells.len(), 1);
    let c = &cells[0];
    assert_eq!(c.fg, Rgba { r: 255, g: 0, b: 0, a: 255 });
    assert_eq!(c.bg, Rgba { r: 0, g: 0, b: 255, a: 255 });
}

#[test]
fn halfblock_cells_handles_empty_request() {
    let p = Preview { width: 4, height: 4, rgba: vec![255u8; 64] };
    assert!(halfblock_cells(&p, 0, 4).is_empty());
    assert!(halfblock_cells(&p, 4, 0).is_empty());
}

#[test]
fn halfblock_cells_handles_oversized_request_without_panicking() {
    let p = Preview { width: 2, height: 2, rgba: vec![255u8; 16] };
    let cells = halfblock_cells(&p, 10, 10);
    assert_eq!(cells.len(), 100, "every cell still emitted");
}

#[test]
fn composite_rgba_opaque_src_overwrites_dst() {
    let dst: Vec<u8> = (0..4).flat_map(|_| [255u8, 0, 0, 255]).collect();
    let src = vec![0u8, 255, 0, 255];
    let out = composite_rgba(&dst, 2, 2, &src, 1, 1, 1, 0);
    assert_eq!(&out[0..4], &[255, 0, 0, 255]);
    assert_eq!(&out[4..8], &[0, 255, 0, 255]);
    assert_eq!(&out[8..12], &[255, 0, 0, 255]);
    assert_eq!(&out[12..16], &[255, 0, 0, 255]);
}

#[test]
fn composite_rgba_transparent_src_leaves_dst_unchanged() {
    let dst = vec![10u8, 20, 30, 255, 40, 50, 60, 255];
    let src = vec![200u8, 200, 200, 0];
    let out = composite_rgba(&dst, 2, 1, &src, 1, 1, 0, 0);
    assert_eq!(out, dst);
}

#[test]
fn composite_rgba_half_alpha_blends_to_midpoint() {
    let dst = vec![0u8, 0, 0, 255];
    let src = vec![255u8, 255, 255, 128];
    let out = composite_rgba(&dst, 1, 1, &src, 1, 1, 0, 0);
    for &c in &out[..3] {
        assert!((127..=129).contains(&c), "channel {c} not near midpoint");
    }
    assert_eq!(out, vec![128, 128, 128, 255]);
}

#[test]
fn composite_rgba_src_overhangs_dst_clips_silently() {
    let dst = vec![0u8; 16];
    let mut src = vec![123u8; 64];
    for px in src.chunks_exact_mut(4) {
        px[3] = 255;
    }
    let out = composite_rgba(&dst, 2, 2, &src, 4, 4, 1, 1);
    assert_eq!(out.len(), 16);
    assert_eq!(&out[0..12], &[0u8; 12]);
    assert_eq!(&out[12..16], &[123, 123, 123, 255]);
}

#[test]
fn composite_rgba_malformed_src_returns_dst_copy() {
    let dst = vec![5u8; 16];
    let src = vec![99u8; 8];
    let out = composite_rgba(&dst, 2, 2, &src, 4, 4, 0, 0);
    assert_eq!(out, dst);
}

#[test]
fn composing_far_outside_changes_nothing() {
    let dst = vec![7u8; 16];
    let src = vec![9u8; 16];
    assert_eq!(composite_rgba(&dst, 2, 2, &src, 2, 2, u32::MAX, u32::MAX), dst);
}

#[test]
fn large_images_fill_one_side_in_proportion() {
    assert_eq!(preview_dimensions(100, 1000), (19, 192));
    assert_eq!(preview_dimensions(161, 192), (160, 191));
    assert_eq!(preview_dimensions(u32::MAX, 1), (160, 1));
    assert_eq!(preview_dimensions(u32::MAX, u32::MAX), (160, 160));
    for (w, h) in [(161u32, 7u32), (3, 193), (1920, 1080), (1080, 1920), (16_777_217, 40_000)] {
        let (dw, dh) = preview_dimensions(w, h);
        assert!(dw <= w && dh <= h);
        assert!(dw == 160 || dh == 192);
        let (n, side, limit, full) = if dw == 160 { (dh, h, dw, w) } else { (dw, w, dh, h) };
        let (n, side, limit, full) = (n as u64, side as u64, limit as u64, full as u64);
        let off = (n * full).abs_diff(limit * side);
        assert!(100 * off <= 51 * full || (n == 1 && 100 * limit * side <= 51 * full));
    }
}
