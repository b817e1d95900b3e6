use manga_fetch::image_downloader::{plan_page_downloads, remove_drm_on_all_images_in_directory};
use manga_fetch::pipeline::{advance, chapter_directory, cover_download, start, Stage};
use manga_fetch::request_handler::{extract_episode_json, Page, PageStructure};
use manga_fetch::tile::TransformError;

fn main_page(src: Option<&str>) -> Page {
    Page::Main { height: Some(10), width: Some(10), content_start: None, src: src.map(|s| s.to_string()) }
}

fn structure(marker: &str) -> PageStructure {
    PageStructure {
        reading_direction: "rtl".to_string(),
        start_position: "right".to_string(),
        cho_ju_giga: marker.to_string(),
        pages: vec![
            Page::Link { link_position: "start".to_string() },
            main_page(Some("http://x/a")),
            main_page(None),
            main_page(Some("http://x/b")),
            Page::Other,
            main_page(Some("http://x/c")),
            Page::BackMatter,
        ],
    }
}

#[test]
fn plan_fetches_main_pages_with_source() {
    let s = structure("baku");
    let jobs = plan_page_downloads("/d", &s, &vec![false; 7]);
    let got: Vec<(String, String, bool)> = jobs.into_iter().map(|j| (j.url, j.target_file, j.drm)).collect();
    assert_eq!(
        got,
        vec![
            ("http://x/a".to_string(), "/d/0002.jpg".to_string(), true),
            ("http://x/b".to_string(), "/d/0004.jpg".to_string(), true),
            ("http://x/c".to_string(), "/d/0006.jpg".to_string(), true),
        ]
    );
}

#[test]
fn existing_pages_are_not_fetched_again() {
    let s = structure("usagi");
    let exists = vec![false, false, false, true, false, false, false];
    let jobs = plan_page_downloads("/d", &s, &exists);
    let got: Vec<(String, bool)> = jobs.into_iter().map(|j| (j.target_file, j.drm)).collect();
    assert_eq!(got, vec![("/d/0002.jpg".to_string(), false), ("/d/0006.jpg".to_string(), false)]);
}

#[test]
fn stages_of_a_full_run() {
    let mut st = start(false, false);
    assert_eq!(st, Stage::ResolveMetadata);
    st = advance(st, false, 2, true);
    assert_eq!(st, Stage::FetchCover);
    st = advance(st, false, 2, true);
    assert_eq!(st, Stage::FetchPage(0));
    st = advance(st, false, 2, true);
    assert_eq!(st, Stage::FetchPage(1));
    st = advance(st, false, 2, true);
    assert_eq!(st, Stage::Package);
    st = advance(st, false, 2, true);
    assert_eq!(st, Stage::Done);
}

#[test]
fn one_failed_page_aborts_the_run() {
    let outcomes = [true, true, true, false, true, true, true];
    let mut st = start(false, false);
    let mut packaged = false;
    for ok in outcomes {
        if st == Stage::Package {
            packaged = true;
        }
        st = advance(st, false, 3, ok);
    }
    assert_eq!(st, Stage::Failed);
    assert!(!packaged);
}

#[test]
fn offline_modes() {
    assert_eq!(start(true, false), Stage::ProcessExisting);
    assert_eq!(advance(Stage::ProcessExisting, false, 0, true), Stage::Done);
    assert_eq!(advance(Stage::ProcessExisting, true, 0, true), Stage::ConvertExisting);
    assert_eq!(start(false, true), Stage::ConvertExisting);
    assert_eq!(advance(Stage::ConvertExisting, true, 0, true), Stage::Done);
    assert_eq!(start(true, true), Stage::ProcessExisting);
}

#[test]
fn chapter_directory_uses_last_segment() {
    assert_eq!(chapter_directory("/home/me", "https://x.com/episode/1393"), "/home/me/1393");
    assert_eq!(chapter_directory("out", "plain"), "out/plain");
}

#[test]
fn cover_job() {
    let j = cover_download("/d", "http://x/t.jpg", "cover.jpg", true);
    assert_eq!((j.url.as_str(), j.target_file.as_str(), j.drm), ("http://x/t.jpg", "/d/cover.jpg", true));
}

#[test]
fn episode_json_is_found() {
    let html = r#"<html><body><script id="episode-json" type="text/json" data-value="{&quot;a&quot;:1}"></script></body></html>"#;
    assert_eq!(extract_episode_json(html), Some("{\"a\":1}".to_string()));
    assert_eq!(extract_episode_json("<html><body></body></html>"), None);
}

#[test]
fn directory_stops_on_undecodable_image() {
    let names = vec!["0001.jpg".to_string(), "cover.jpg".to_string(), "a.txt".to_string()];
    let contents = vec![vec![1u8, 2, 3], vec![], vec![]];
    let r = remove_drm_on_all_images_in_directory(&names, &contents, &vec!["cover.jpg".to_string()]);
    assert_eq!(r.unwrap_err(), TransformError::Decode);
    let r = remove_drm_on_all_images_in_directory(&names, &contents, &vec!["0001.jpg".to_string(), "cover.jpg".to_string()]);
    assert_eq!(r.unwrap().len(), 0);
}

#[test]
fn settings_of_a_run() {
    let s = manga_fetch::pipeline::settings_for("https://x.com/episode/77", "/out", true, false);
    assert_eq!(s.source, "https://x.com/episode/77");
    assert_eq!(s.destination, "/out/77");
    assert_eq!(s.epub_file_name, "output.epub");
    assert!(s.process_only && !s.convert_only);
    assert_eq!(s.epub_configuration.cover_image, "cover.jpg");
    assert_eq!(s.epub_configuration.title, "");
}

#[test]
fn directory_images_are_descrambled_in_place() {
    let (w, h) = (32u32, 32u32);
    let mut rgb = Vec::new();
    for i in 0..(w * h) {
        rgb.extend_from_slice(&[(i % 256) as u8, (i / 256) as u8 * 50, 7]);
    }
    let mut encoded = std::io::Cursor::new(Vec::new());
    image::write_buffer_with_format(&mut encoded, &rgb, w, h, image::ExtendedColorType::Rgb8, image::ImageFormat::Png)
        .unwrap();
    let png = encoded.into_inner();
    let names = vec!["cover.png".to_string(), "0001.png".to_string(), "x.txt".to_string()];
    let contents = vec![png.clone(), png.clone(), vec![1]];
    let out = remove_drm_on_all_images_in_directory(&names, &contents, &vec!["cover.png".to_string()]).unwrap();
    assert_eq!(out.len(), 1);
    assert_eq!(out[0].0, "0001.png");
    let back = image::load_from_memory(&out[0].1).unwrap().into_rgb8();
    // 8×8 cells: the pixel at (8, 0) comes from (0, 8).
    let src = (8 * w) as usize * 3;
    assert_eq!(back.get_pixel(8, 0).0, [rgb[src], rgb[src + 1], rgb[src + 2]]);
}
