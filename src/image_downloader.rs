use crate::request_handler::{Page, PageStructure};
use crate::sequence::{is_image_name, page_file_name, page_name};
use crate::tile::{descrambled_file, remove_drm, RasterFormat, TransformError};
use crate::sequence::is_image_file_name;
use crate::utils::{is_collected, is_excluded_name};
use vstd::prelude::*;
use vstd::string::StringExecFns;

verus! {

/// One image to fetch: where from, where to, and whether it must be descrambled.
pub struct DownloadImage {
    pub url: String,
    pub target_file: String,
    pub drm: bool,
}

/// The marker under which a chapter's pages are not scrambled.
pub open spec fn unscrambled_marker() -> Seq<char> {
    seq!['u', 's', 'a', 'g', 'i']
}

/// Whether page entry `p` is an image to fetch.
pub open spec fn is_actionable(p: Page) -> bool {
    p matches Page::Main { src: Some(_), .. }
}

/// Positions of the pages to fetch in this run: the actionable ones whose
/// target file does not exist yet, in page order.
pub open spec fn planned_pages(pages: Seq<Page>, exists: Seq<bool>) -> Seq<int>
    decreases pages.len(),
{
    if pages.len() == 0 {
        Seq::empty()
    } else {
        let prev = planned_pages(pages.drop_last(), exists);
        let i = pages.len() - 1;
        if is_actionable(pages[i]) && !exists[i] {
            prev.push(i)
        } else {
            prev
        }
    }
}

/// Path of the page at position `i` (0-based) under `dir`.
pub open spec fn page_target(dir: Seq<char>, i: int) -> Seq<char> {
    dir + seq!['/'] + page_name((i + 1) as nat)
}

/// The job that fetches page entry `p`, at position `i`.
pub open spec fn is_page_job(d: DownloadImage, dir: Seq<char>, p: Page, i: int, drm: bool) -> bool {
    &&& p matches Page::Main { src: Some(url), .. } && d.url@ == url@
    &&& d.target_file@ == page_target(dir, i)
    &&& d.drm == drm
}

/// Skip-on-exists: a page whose target file already exists is never fetched.
pub proof fn existing_pages_are_skipped(pages: Seq<Page>, exists: Seq<bool>, i: int)
    requires
        pages.len() == exists.len(),
        0 <= i < pages.len(),
        exists[i],
    ensures
        !planned_pages(pages, exists).contains(i),
{
    lemma_existing_skipped(pages, exists, i);
}

proof fn lemma_existing_skipped(pages: Seq<Page>, exists: Seq<bool>, i: int)
    requires
        pages.len() <= exists.len(),
        0 <= i < pages.len(),
        exists[i],
    ensures
        !planned_pages(pages, exists).contains(i),
    decreases pages.len(),
{
    let prev = planned_pages(pages.drop_last(), exists);
    lemma_planned_below(pages.drop_last(), exists);
    if i < pages.len() - 1 {
        lemma_existing_skipped(pages.drop_last(), exists, i);
        assert(!prev.push(pages.len() - 1).contains(i)) by {
            if prev.push(pages.len() - 1).contains(i) {
                let k = choose|k: int| 0 <= k < prev.len() + 1 && #[trigger] prev.push(pages.len() - 1)[k] == i;
                if k < prev.len() {
                    assert(prev.contains(i));
                }
            }
        }
    } else {
        assert(!prev.contains(i)) by {
            if prev.contains(i) {
                let k = choose|k: int| 0 <= k < prev.len() && #[trigger] prev[k] == i;
            }
        }
    }
}

proof fn lemma_planned_below(pages: Seq<Page>, exists: Seq<bool>)
    ensures
        forall|k: int|
            0 <= k < planned_pages(pages, exists).len() ==> 0 <= #[trigger] planned_pages(
                pages,
                exists,
            )[k] < pages.len(),
    decreases pages.len(),
{
    if pages.len() > 0 {
        let prev = planned_pages(pages.drop_last(), exists);
        lemma_planned_below(pages.drop_last(), exists);
        assert forall|k: int| 0 <= k < planned_pages(pages, exists).len() implies 0
            <= #[trigger] planned_pages(pages, exists)[k] < pages.len() by {
            if k < prev.len() {
                assert(planned_pages(pages, exists)[k] == prev[k]);
            }
        }
    }
}

/// The fetch jobs of a chapter's pages under directory `dir`: one for each
/// actionable page whose file does not exist yet (`exists[i]` for page `i`),
/// in page order, to be descrambled unless the chapter's scramble marker
/// reads `usagi`.
pub fn plan_page_downloads(dir: &str, structure: &PageStructure, exists: &Vec<bool>) -> (r: Vec<
    DownloadImage,
>)
    requires
        structure.pages@.len() == exists@.len(),
        structure.pages@.len() < u32::MAX,
    ensures
        r@.len() == planned_pages(structure.pages@, exists@).len(),
        forall|k: int|
            0 <= k < r@.len() ==> is_page_job(
                #[trigger] r@[k],
                dir@,
                structure.pages@[planned_pages(structure.pages@, exists@)[k]],
                planned_pages(structure.pages@, exists@)[k],
                structure.cho_ju_giga@ != unscrambled_marker(),
            ),
{
    let usagi = String::from_str("usagi");
    proof {
        reveal_strlit("usagi");
        reveal_strlit("/");
    }
    let drm = !(structure.cho_ju_giga == usagi);
    assert(usagi@ =~= unscrambled_marker());
    let pages = &structure.pages;
    let ghost pv = pages@;
    let mut r: Vec<DownloadImage> = Vec::new();
    let mut i: usize = 0;
    while i < pages.len()
        invariant
            pv == pages@,
            pv.len() == exists@.len(),
            pv.len() < u32::MAX,
            i <= pv.len(),
            drm == (structure.cho_ju_giga@ != unscrambled_marker()),
            "/"@ == seq!['/'],
            r@.len() == planned_pages(pv.take(i as int), exists@).len(),
            forall|k: int|
                0 <= k < r@.len() ==> is_page_job(
                    #[trigger] r@[k],
                    dir@,
                    pv[planned_pages(pv.take(i as int), exists@)[k]],
                    planned_pages(pv.take(i as int), exists@)[k],
                    drm,
                ),
        decreases pv.len() - i,
    {
        let ghost prev = planned_pages(pv.take(i as int), exists@);
        assert(pv.take(i + 1).drop_last() =~= pv.take(i as int));
        assert(pv.take(i + 1)[i as int] == pv[i as int]);
        if !exists[i] {
            match &pages[i] {
                Page::Main { src: Some(url), .. } => {
                    let name = page_file_name((i + 1) as u32);
                    let target = String::from_str(dir).concat("/").concat(name.as_str());
                    r.push(DownloadImage { url: url.clone(), target_file: target, drm });
                    assert(r@[r@.len() - 1].target_file@ =~= page_target(dir@, i as int));
                },
                _ => {},
            }
        }
        i += 1;
    }
    assert(pv.take(pv.len() as int) =~= pv);
    r
}

/// Raster format of an image file, by its extension.
pub open spec fn format_of(name: Seq<char>) -> RasterFormat {
    if name[name.len() - 3] == 'p' {
        RasterFormat::Png
    } else {
        RasterFormat::Jpeg
    }
}

pub fn format_of_name(name: &String) -> (r: RasterFormat)
    requires
        is_image_name(name@),
    ensures
        r == format_of(name@),
{
    let c = crate::sequence::chars_of(name.as_str());
    if c[c.len() - 3] == 'p' {
        RasterFormat::Png
    } else {
        RasterFormat::Jpeg
    }
}

/// Positions of the files of a directory listing that are images to work on.
pub open spec fn collected_positions(names: Seq<String>, exclude: Seq<String>) -> Seq<int>
    decreases names.len(),
{
    if names.len() == 0 {
        Seq::empty()
    } else {
        let prev = collected_positions(names.drop_last(), exclude);
        if is_collected(names.last()@, exclude) {
            prev.push(names.len() - 1)
        } else {
            prev
        }
    }
}

/// Entry `e` of the output is the descrambled file at position `p` of the
/// listing, which lies before position `m`.
pub open spec fn entry_done(
    names: Seq<String>,
    contents: Seq<Vec<u8>>,
    p: int,
    m: int,
    e: (String, Vec<u8>),
) -> bool {
    &&& 0 <= p < m
    &&& e.0 == names[p]
    &&& descrambled_file(contents[p]@, format_of(names[p]@)) == Ok::<Seq<u8>, TransformError>(e.1@)
}

/// Descrambles every image of a directory listing (`names[i]` holding
/// `contents[i]`) that ends in `.jpg` or `.png` and is not excluded, keeping
/// its format. Stops at the first file that fails; on success gives each
/// image's name with its new contents, in listing order.
pub fn remove_drm_on_all_images_in_directory(
    names: &Vec<String>,
    contents: &Vec<Vec<u8>>,
    exclude: &Vec<String>,
) -> (r: Result<Vec<(String, Vec<u8>)>, TransformError>)
    requires
        names@.len() == contents@.len(),
    ensures
        r is Ok <==> forall|k: int|
            0 <= k < collected_positions(names@, exclude@).len() ==> (descrambled_file(
                contents@[#[trigger] collected_positions(names@, exclude@)[k]]@,
                format_of(names@[collected_positions(names@, exclude@)[k]]@),
            ) is Ok),
        ({
            let pos = collected_positions(names@, exclude@);
            match r {
                Ok(out) => {
                    &&& out@.len() == pos.len()
                    &&& forall|k: int|
                        0 <= k < out@.len() ==> {
                            &&& (#[trigger] out@[k]).0 == names@[pos[k]]
                            &&& descrambled_file(contents@[pos[k]]@, format_of(names@[pos[k]]@))
                                == Ok::<Seq<u8>, TransformError>(out@[k].1@)
                        }
                },
                Err(e) => exists|k: int|
                    0 <= k < pos.len() && descrambled_file(
                        contents@[#[trigger] pos[k]]@,
                        format_of(names@[pos[k]]@),
                    ) == Err::<Seq<u8>, TransformError>(e) && forall|j: int|
                        0 <= j < k ==> (descrambled_file(
                            contents@[#[trigger] pos[j]]@,
                            format_of(names@[pos[j]]@),
                        ) is Ok),
            }
        }),
{
    let mut out: Vec<(String, Vec<u8>)> = Vec::new();
    let mut i: usize = 0;
    while i < names.len()
        invariant
            i <= names@.len(),
            names@.len() == contents@.len(),
            out@.len() == collected_positions(names@.take(i as int), exclude@).len(),
            forall|k: int|
                0 <= k < out@.len() ==> entry_done(
                    names@,
                    contents@,
                    collected_positions(names@.take(i as int), exclude@)[k],
                    i as int,
                    #[trigger] out@[k],
                ),
        decreases names@.len() - i,
    {
        let ghost prev = collected_positions(names@.take(i as int), exclude@);
        let ghost old_out = out@;
        assert(names@.take(i + 1).drop_last() =~= names@.take(i as int));
        assert(names@.take(i + 1).last() == names@[i as int]);
        if is_image_file_name(names[i].as_str()) && !is_excluded_name(&names[i], exclude) {
            let format = format_of_name(&names[i]);
            match remove_drm(contents[i].as_slice(), format) {
                Ok(data) => {
                    let name = names[i].clone();
                    assert(descrambled_file(contents@[i as int]@, format_of(names@[i as int]@))
                        == Ok::<Seq<u8>, TransformError>(data@));
                    out.push((name, data));
                },
                Err(e) => {
                    proof {
                        lemma_positions_prefix(names@, exclude@, i + 1);
                        let full = collected_positions(names@, exclude@);
                        let k = prev.len() as int;
                        assert(full[k] == i);
                        assert forall|j: int| 0 <= j < k implies (descrambled_file(
                            contents@[#[trigger] full[j]]@,
                            format_of(names@[full[j]]@),
                        ) is Ok) by {
                            assert(full[j] == prev[j]);
                            assert(entry_done(names@, contents@, prev[j], i as int, out@[j]));
                        }
                    }
                    return Err(e);
                },
            }
        }
        i += 1;
        proof {
            let next = collected_positions(names@.take(i as int), exclude@);
            assert forall|k: int| 0 <= k < out@.len() implies entry_done(
                names@,
                contents@,
                next[k],
                i as int,
                #[trigger] out@[k],
            ) by {
                if k < prev.len() {
                    assert(next[k] == prev[k]);
                    assert(out@[k] == old_out[k]);
                } else {
                    assert(next[k] == i - 1);
                }
            }
        }
    }
    assert(names@.take(names@.len() as int) =~= names@);
    proof {
        let pos = collected_positions(names@, exclude@);
        assert forall|k: int| 0 <= k < pos.len() implies (descrambled_file(
            contents@[#[trigger] pos[k]]@,
            format_of(names@[pos[k]]@),
        ) is Ok) by {
            assert(entry_done(names@, contents@, pos[k], names@.len() as int, out@[k]));
        }
    }
    Ok(out)
}

proof fn lemma_positions_prefix(names: Seq<String>, exclude: Seq<String>, m: int)
    requires
        0 <= m <= names.len(),
    ensures
        collected_positions(names.take(m), exclude).len() <= collected_positions(names, exclude).len(),
        forall|k: int|
            0 <= k < collected_positions(names.take(m), exclude).len() ==> #[trigger] collected_positions(
                names,
                exclude,
            )[k] == collected_positions(names.take(m), exclude)[k],
    decreases names.len() - m,
{
    if m < names.len() {
        lemma_positions_prefix(names, exclude, m + 1);
        assert(names.take(m + 1).drop_last() =~= names.take(m));
    } else {
        assert(names.take(m) =~= names);
    }
}

} // verus!
