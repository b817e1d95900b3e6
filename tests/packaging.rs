use manga_fetch::epub_bundler::{plan_archive, PackageError};

fn png(w: u32, h: u32, shade: u8) -> Vec<u8> {
    let rgb = vec![shade; (w * h * 3) as usize];
    let mut out = std::io::Cursor::new(Vec::new());
    image::write_buffer_with_format(&mut out, &rgb, w, h, image::ExtendedColorType::Rgb8, image::ImageFormat::Png)
        .unwrap();
    out.into_inner()
}

#[test]
fn spine_keeps_the_given_order() {
    let (a, b, c) = (png(2, 2, 1), png(3, 3, 2), png(4, 4, 3));
    let plan = plan_archive("T", "cover.jpg", png(1, 1, 0), vec![a.clone(), b.clone(), c.clone()]).unwrap();
    assert_eq!(plan.title, "T");
    assert_eq!(plan.authors, vec!["Shonenmagazine".to_string()]);
    assert!(plan.rtl);
    assert_eq!(plan.lang, "jp");
    assert_eq!(plan.writing_mode, "vertical-rl");
    assert_eq!(plan.cover.mime, "image/png");
    let data: Vec<Vec<u8>> = plan.pages.iter().map(|p| p.image.data.clone()).collect();
    assert_eq!(data, vec![a, b, c]);
    let ids: Vec<&str> = plan.pages.iter().map(|p| p.chapter_id.as_str()).collect();
    assert_eq!(ids, vec!["chapter-1", "chapter-2", "chapter-3"]);
    assert_eq!(plan.pages[1].image.name, "image_2.png");
    assert_eq!(plan.pages[1].image.mime, "image/png");
    assert!(plan.pages[1].document.contains("<img src=\"image_2.png\" alt=\"chapter-2\"/>"));
}

#[test]
fn unknown_page_type_is_reported() {
    let r = plan_archive("T", "cover.jpg", png(1, 1, 0), vec![png(2, 2, 1), vec![0, 1, 2, 3]]);
    assert_eq!(r.err().unwrap(), PackageError::UnknownPageType(1));
}

#[test]
fn unknown_cover_type_is_reported() {
    let r = plan_archive("T", "cover.jpg", vec![9, 9, 9], vec![png(2, 2, 1)]);
    assert_eq!(r.err().unwrap(), PackageError::UnknownCoverType);
}

#[test]
fn empty_chapter_has_an_empty_spine() {
    let plan = plan_archive("T", "cover.jpg", png(1, 1, 0), Vec::new()).unwrap();
    assert!(plan.pages.is_empty());
}

#[test]
fn archive_declares_its_language() {
    let plan = plan_archive("T", "cover.jpg", png(1, 1, 0), vec![png(2, 2, 1)]).unwrap();
    assert_eq!(plan.lang, "jp");
    assert!(plan.pages[0].document.contains("xml:lang=\"en\" lang=\"ja\""));
}

#[test]
fn non_image_page_is_refused() {
    let html = b"<!DOCTYPE html><html><body>error</body></html>".to_vec();
    let r = plan_archive("T", "cover.jpg", png(1, 1, 0), vec![png(2, 2, 1), html.clone()]);
    assert_eq!(r.err().unwrap(), PackageError::UnknownPageType(1));
    let r = plan_archive("T", "cover.jpg", html, vec![png(2, 2, 1)]);
    assert_eq!(r.err().unwrap(), PackageError::UnknownCoverType);
}
