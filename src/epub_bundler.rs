use crate::sequence::{chars_of, decimal, decimal_string};
use vstd::prelude::*;
use vstd::string::StringExecFns;

verus! {

/// Content type and usual extension of the file that the bytes hold, found
/// from the bytes themselves.
pub uninterp spec fn sniffed_type(data: Seq<u8>) -> Option<(Seq<char>, Seq<char>)>;

/// Relies on infer::get with Type::mime_type and Type::extension: the file
/// type recognised from the leading bytes, if any.
#[verifier::external_body]
fn sniff(data: &[u8]) -> (r: Option<(String, String)>)
    ensures
        match r {
            Some((mime, ext)) => sniffed_type(data@) == Some((mime@, ext@)),
            None => sniffed_type(data@) is None,
        },
{
    match infer::get(data) {
        Some(t) => Some((t.mime_type().to_string(), t.extension().to_string())),
        None => None,
    }
}

/// Whether a content type is that of an image: it starts with `image/`.
pub open spec fn is_image_mime(mime: Seq<char>) -> bool {
    mime.len() >= 6 && mime.subrange(0, 6) == seq!['i', 'm', 'a', 'g', 'e', '/']
}

/// Whether the bytes are recognised as an image file.
pub open spec fn is_image_file(data: Seq<u8>) -> bool {
    sniffed_type(data) matches Some((mime, _)) && is_image_mime(mime)
}

/// Content type and extension of an image file, or `None` where the bytes
/// are of no known type or of a type that is no image.
fn sniff_image(data: &[u8]) -> (r: Option<(String, String)>)
    ensures
        match r {
            Some((mime, ext)) => sniffed_type(data@) == Some((mime@, ext@)) && is_image_mime(mime@),
            None => !is_image_file(data@),
        },
{
    let (mime, ext) = match sniff(data) {
        Some(t) => t,
        None => return None,
    };
    let c = chars_of(mime.as_str());
    if c.len() >= 6 && c[0] == 'i' && c[1] == 'm' && c[2] == 'a' && c[3] == 'g' && c[4] == 'e'
        && c[5] == '/' {
        assert(mime@.subrange(0, 6) =~= seq!['i', 'm', 'a', 'g', 'e', '/']);
        Some((mime, ext))
    } else {
        assert(!is_image_mime(mime@)) by {
            if mime@.len() >= 6 {
                assert(mime@.subrange(0, 6)[0] == mime@[0]);
                assert(mime@.subrange(0, 6)[1] == mime@[1]);
                assert(mime@.subrange(0, 6)[2] == mime@[2]);
                assert(mime@.subrange(0, 6)[3] == mime@[3]);
                assert(mime@.subrange(0, 6)[4] == mime@[4]);
                assert(mime@.subrange(0, 6)[5] == mime@[5]);
            }
        }
        None
    }
}

/// One file of the archive.
pub struct ArchiveResource {
    pub name: String,
    pub mime: String,
    pub data: Vec<u8>,
}

/// One page of the archive: its image and the document that shows it.
pub struct ArchivePage {
    pub image: ArchiveResource,
    pub chapter_id: String,
    pub document: String,
}

/// Everything the archive holds, in reading order.
pub struct ArchivePlan {
    pub title: String,
    pub authors: Vec<String>,
    pub lang: String,
    pub toc_name: String,
    /// Value of the `primary-writing-mode` metadata entry.
    pub writing_mode: String,
    /// Whether pages are read right to left.
    pub rtl: bool,
    pub cover: ArchiveResource,
    pub stylesheet: String,
    /// The spine, in this order.
    pub pages: Vec<ArchivePage>,
}

/// Why the archive could not be assembled.
#[derive(Clone, Copy, Debug, PartialEq, Eq, Structural)]
pub enum PackageError {
    /// The cover's bytes are not recognised as an image.
    UnknownCoverType,
    /// The page at this position (0-based) is not recognised as an image.
    UnknownPageType(usize),
}

/// Identifier of the page document at (1-based) position `n`.
pub open spec fn chapter_id(n: nat) -> Seq<char> {
    "chapter-"@ + decimal(n)
}

/// Name of the image of the page at (1-based) position `n`.
pub open spec fn image_name(n: nat, ext: Seq<char>) -> Seq<char> {
    "image_"@ + decimal(n) + "."@ + ext
}

/// The document of the page at (1-based) position `n`: one image, full page.
pub open spec fn page_document(n: nat, image: Seq<char>) -> Seq<char> {
    "<html xmlns=\"http://www.w3.org/1999/xhtml\" xmlns:epub=\"http://www.idpf.org/2007/ops\" xml:lang=\"en\" lang=\"ja\">\n<head>\n<meta charset=\"UTF-8\" />\n<title>"@
        + chapter_id(n) + "</title>\n</head>\n<body>\n<img src=\""@ + image + "\" alt=\""@
        + chapter_id(n) + "\"/>\n</body>\n</html>"@
}

/// The shared stylesheet: no margins, images full bleed.
pub open spec fn stylesheet_text() -> Seq<char> {
    "@charset \"UTF-8\";\n\nhtml,\nbody {\n    margin:    0;\n    padding:   0;\n    font-size: 0;\n}\nsvg, img {\n    margin:    0;\n    padding:   0;\n}\n"@
}

/// Whether `p` is the archive page made of `data` at (1-based) position `n`.
pub open spec fn is_page_of(p: ArchivePage, data: Seq<u8>, n: nat) -> bool {
    &&& is_image_file(data)
    &&& sniffed_type(data) matches Some((mime, ext))
    &&& p.image.data@ == data
    &&& p.image.mime@ == mime
    &&& p.image.name@ == image_name(n, ext)
    &&& p.chapter_id@ == chapter_id(n)
    &&& p.document@ == page_document(n, image_name(n, ext))
}

fn chapter_id_of(n: u32) -> (r: String)
    ensures
        r@ == chapter_id(n as nat),
{
    String::from_str("chapter-").concat(decimal_string(n).as_str())
}

fn page_of(data: Vec<u8>, n: u32) -> (r: Option<ArchivePage>)
    ensures
        match r {
            Some(p) => is_page_of(p, data@, n as nat),
            None => !is_image_file(data@),
        },
{
    let (mime, ext) = match sniff_image(data.as_slice()) {
        Some(t) => t,
        None => return None,
    };
    let name = String::from_str("image_").concat(decimal_string(n).as_str()).concat(".").concat(
        ext.as_str(),
    );
    let id = chapter_id_of(n);
    let document = String::from_str(
        "<html xmlns=\"http://www.w3.org/1999/xhtml\" xmlns:epub=\"http://www.idpf.org/2007/ops\" xml:lang=\"en\" lang=\"ja\">\n<head>\n<meta charset=\"UTF-8\" />\n<title>",
    ).concat(id.as_str()).concat("</title>\n</head>\n<body>\n<img src=\"").concat(name.as_str()).concat(
        "\" alt=\"",
    ).concat(id.as_str()).concat("\"/>\n</body>\n</html>");
    Some(
        ArchivePage {
            image: ArchiveResource { name, mime, data },
            chapter_id: id,
            document,
        },
    )
}

/// Assembles the archive of a chapter: the cover, one page per image in the
/// given order (the spine keeps that order), the stylesheet, and metadata
/// for Japanese right-to-left reading. Every file's type is found from its
/// bytes; the first one of no known type is reported.
pub fn plan_archive(title: &str, cover_name: &str, cover: Vec<u8>, pages: Vec<Vec<u8>>) -> (r:
    Result<ArchivePlan, PackageError>)
    requires
        pages@.len() < u32::MAX,
    ensures
        !is_image_file(cover@) ==> r == Err::<ArchivePlan, PackageError>(
            PackageError::UnknownCoverType,
        ),
        is_image_file(cover@) ==> match r {
            Ok(plan) => {
                &&& forall|k: int|
                    0 <= k < pages@.len() ==> #[trigger] is_image_file(pages@[k]@)
                &&& plan.title@ == title@
                &&& plan.authors@.len() == 1 && plan.authors@[0]@ == "Shonenmagazine"@
                &&& plan.rtl
                &&& plan.lang@ == "jp"@
                &&& plan.toc_name@ == "Table of contents"@
                &&& plan.writing_mode@ == "vertical-rl"@
                &&& plan.stylesheet@ == stylesheet_text()
                &&& plan.cover.name@ == cover_name@
                &&& plan.cover.data@ == cover@
                &&& sniffed_type(cover@) matches Some((mime, _)) && plan.cover.mime@ == mime
                &&& plan.pages@.len() == pages@.len()
                &&& forall|k: int|
                    0 <= k < pages@.len() ==> is_page_of(
                        #[trigger] plan.pages@[k],
                        pages@[k]@,
                        (k + 1) as nat,
                    )
            },
            Err(e) => exists|k: int|
                0 <= k < pages@.len() && e == PackageError::UnknownPageType(k as usize) && (
                !#[trigger] is_image_file(pages@[k]@)) && forall|j: int|
                    0 <= j < k ==> #[trigger] is_image_file(pages@[j]@),
        },
{
    let (cover_mime, _) = match sniff_image(cover.as_slice()) {
        Some(t) => t,
        None => return Err(PackageError::UnknownCoverType),
    };
    let ghost input = pages@;
    let mut rest = pages;
    let mut out: Vec<ArchivePage> = Vec::new();
    let mut i: usize = 0;
    while rest.len() > 0
        invariant
            input.len() < u32::MAX,
            input == pages@,
            is_image_file(cover@),
            sniffed_type(cover@) matches Some((mime, _)) && cover_mime@ == mime,
            i == out@.len(),
            i + rest@.len() == input.len(),
            forall|k: int| 0 <= k < rest@.len() ==> rest@[k] == input[i + k],
            forall|k: int| 0 <= k < i ==> is_page_of(#[trigger] out@[k], input[k]@, (k + 1) as nat),
        decreases rest@.len(),
    {
        let ghost head = rest@[0];
        let ghost before = rest@;
        assert(head == input[i as int]);
        let data = rest.remove(0);
        proof {
            assert forall|k: int| 0 <= k < rest@.len() implies rest@[k] == input[i + 1 + k] by {
                assert(rest@[k] == before[k + 1]);
            }
        }
        match page_of(data, (i + 1) as u32) {
            Some(p) => out.push(p),
            None => {
                proof {
                    assert forall|j: int| 0 <= j < i implies #[trigger] is_image_file(input[j]@) by {
                        assert(is_page_of(out@[j], input[j]@, (j + 1) as nat));
                    }
                    assert(!is_image_file(input[i as int]@));
                }
                return Err(PackageError::UnknownPageType(i));
            },
        }
        i += 1;
    }
    proof {
        assert forall|k: int| 0 <= k < input.len() implies #[trigger] is_image_file(input[k]@) by {
            assert(is_page_of(out@[k], input[k]@, (k + 1) as nat));
        }
    }
    Ok(
        ArchivePlan {
            title: String::from_str(title),
            authors: vec![String::from_str("Shonenmagazine")],
            lang: String::from_str("jp"),
            toc_name: String::from_str("Table of contents"),
            writing_mode: String::from_str("vertical-rl"),
            rtl: true,
            cover: ArchiveResource {
                name: String::from_str(cover_name),
                mime: cover_mime,
                data: cover,
            },
            stylesheet: String::from_str(
                "@charset \"UTF-8\";\n\nhtml,\nbody {\n    margin:    0;\n    padding:   0;\n    font-size: 0;\n}\nsvg, img {\n    margin:    0;\n    padding:   0;\n}\n",
            ),
            pages: out,
        },
    )
}

} // verus!
