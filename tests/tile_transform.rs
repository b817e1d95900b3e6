use manga_fetch::tile::{descramble, drop_alpha, remove_drm, RasterFormat, TileGrid, TransformError};

fn pattern(width: u32, height: u32) -> Vec<u8> {
    let mut v = Vec::new();
    for i in 0..(width * height * 4) {
        v.push(((i as u64).wrapping_mul(2654435761) >> 13) as u8);
    }
    v
}

fn px(buf: &[u8], width: u32, x: u32, y: u32) -> [u8; 4] {
    let i = ((y * width + x) * 4) as usize;
    [buf[i], buf[i + 1], buf[i + 2], buf[i + 3]]
}

#[test]
fn grid_cell_sizes() {
    let g = TileGrid::new(100, 70);
    assert_eq!(g.cell_w, 24);
    assert_eq!(g.cell_h, 16);
    let g = TileGrid::new(31, 64);
    assert_eq!(g.cell_w, 0);
    assert_eq!(g.cell_h, 16);
}

#[test]
fn descramble_twice_restores_aligned_image() {
    let img = pattern(64, 96);
    let once = descramble(&img, 64, 96);
    assert_ne!(once, img);
    assert_eq!(descramble(&once, 64, 96), img);
}

#[test]
fn descramble_twice_restores_unaligned_image() {
    let img = pattern(70, 45);
    let once = descramble(&img, 70, 45);
    assert_eq!(descramble(&once, 70, 45), img);
}

#[test]
fn cells_are_transposed() {
    let (w, h) = (64u32, 64u32);
    let mut img = vec![0u8; (w * h * 4) as usize];
    for y in 0..h {
        for x in 0..w {
            let cell = (y / 16) * 4 + x / 16;
            let i = ((y * w + x) * 4) as usize;
            img[i] = cell as u8;
            img[i + 1] = 100 + cell as u8;
            img[i + 2] = 200;
            img[i + 3] = 255;
        }
    }
    let out = descramble(&img, w, h);
    for row in 0..4u32 {
        for col in 0..4u32 {
            for dy in [0u32, 7, 15] {
                for dx in [0u32, 9, 15] {
                    let got = px(&out, w, col * 16 + dx, row * 16 + dy);
                    let want = (col * 4 + row) as u8;
                    assert_eq!(got, [want, 100 + want, 200, 255]);
                }
            }
        }
    }
}

#[test]
fn border_is_kept() {
    let (w, h) = (70u32, 45u32);
    let img = pattern(w, h);
    let out = descramble(&img, w, h);
    for y in 0..h {
        for x in 0..w {
            if x >= 64 || y >= 32 {
                assert_eq!(px(&out, w, x, y), px(&img, w, x, y));
            }
        }
    }
    assert_eq!(px(&out, w, 16, 0), px(&img, w, 0, 8));
}

#[test]
fn small_image_is_unchanged() {
    let img = pattern(20, 31);
    assert_eq!(descramble(&img, 20, 31), img);
}

#[test]
fn alpha_is_dropped() {
    let rgba = vec![1u8, 2, 3, 4, 5, 6, 7, 8];
    assert_eq!(drop_alpha(&rgba), vec![1u8, 2, 3, 5, 6, 7]);
}

#[test]
fn remove_drm_on_png_bytes() {
    let (w, h) = (64u32, 32u32);
    let mut rgb = Vec::new();
    for i in 0..(w * h) {
        rgb.extend_from_slice(&[(i % 251) as u8, (i / 7) as u8, 9]);
    }
    let mut encoded = std::io::Cursor::new(Vec::new());
    image::write_buffer_with_format(&mut encoded, &rgb, w, h, image::ExtendedColorType::Rgb8, image::ImageFormat::Png)
        .unwrap();
    let data = encoded.into_inner();
    let out = remove_drm(&data, RasterFormat::Png).unwrap();
    assert_ne!(out, data);
    let decoded = image::load_from_memory(&out).unwrap().into_rgb8();
    assert_eq!(decoded.dimensions(), (w, h));
    let mut rgba = Vec::new();
    for p in rgb.chunks(3) {
        rgba.extend_from_slice(&[p[0], p[1], p[2], 255]);
    }
    let want = drop_alpha(&descramble(&rgba, w, h));
    assert_eq!(decoded.into_raw(), want);
}

#[test]
fn remove_drm_rejects_garbage() {
    assert_eq!(remove_drm(&[1, 2, 3, 4], RasterFormat::Jpeg), Err(TransformError::Decode));
}

#[test]
fn remove_drm_reports_encoder_refusal() {
    // JPEG sides stop at 65535 pixels; PNG has no such limit.
    let (w, h) = (65536u32, 1u32);
    let rgb = vec![5u8; (w * h * 3) as usize];
    let mut encoded = std::io::Cursor::new(Vec::new());
    image::write_buffer_with_format(&mut encoded, &rgb, w, h, image::ExtendedColorType::Rgb8, image::ImageFormat::Png)
        .unwrap();
    let data = encoded.into_inner();
    assert_eq!(remove_drm(&data, RasterFormat::Jpeg), Err(TransformError::Encode));
    assert!(remove_drm(&data, RasterFormat::Png).is_ok());
}
