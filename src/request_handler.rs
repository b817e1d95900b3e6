use vstd::prelude::*;

verus! {

/// The episode payload embedded in a chapter's web page.
pub struct JsonResult {
    pub readable_product: ReadableProduct,
}

/// A chapter as the source describes it.
pub struct ReadableProduct {
    pub product_type: String,
    pub page_structure: PageStructure,
    pub number: u32,
    pub next_readable_product_uri: Option<String>,
    pub has_purchased: bool,
    pub finish_reading_notification_uri: Option<String>,
    pub permalink: String,
    pub show_square_thumbnail_in_recommendation: bool,
    pub image_uris_digest: String,
    pub prev_readable_product_uri: Option<String>,
    pub title: String,
    pub is_public: bool,
    pub id: String,
    pub toc: Option<String>,
    pub series: Series,
    pub published_at: String,
    pub point_gettable_episode_when_complete_reading: Option<String>,
}

/// The pages of a chapter and how they are protected.
pub struct PageStructure {
    pub reading_direction: String,
    pub start_position: String,
    /// Scramble marker: pages are scrambled unless it reads `usagi`.
    pub cho_ju_giga: String,
    pub pages: Vec<Page>,
}

/// One entry of a chapter's page list; only `Main` entries with a `src` are
/// images to fetch.
pub enum Page {
    Link { link_position: String },
    Main {
        height: Option<u32>,
        width: Option<u32>,
        content_start: Option<String>,
        src: Option<String>,
    },
    Other,
    BackMatter,
}

/// The series a chapter belongs to.
pub struct Series {
    pub title: String,
    pub thumbnail_uri: String,
    pub id: String,
}

/// The value of attribute `attr` on the first element of the HTML document
/// `html` that the CSS selector `selector` matches.
pub uninterp spec fn selected_attr(html: Seq<char>, selector: Seq<char>, attr: Seq<char>) -> Option<
    Seq<char>,
>;

/// Relies on scraper's Html::parse_document, Selector::parse, Html::select and
/// ElementRef::attr: the attribute of the first matching element, if any.
#[verifier::external_body]
fn select_attr(html: &str, selector: &str, attr: &str) -> (r: Option<String>)
    ensures
        match r {
            Some(v) => selected_attr(html@, selector@, attr@) == Some(v@),
            None => selected_attr(html@, selector@, attr@) is None,
        },
{
    let document = scraper::Html::parse_document(html);
    let selector = scraper::Selector::parse(selector).ok()?;
    let element = document.select(&selector).next()?;
    element.value().attr(attr).map(|v| v.to_string())
}

/// The chapter page's embedded episode payload: the `data-value` of the
/// `script#episode-json` element, or `None` where the page has none.
pub fn extract_episode_json(html: &str) -> (r: Option<String>)
    ensures
        match r {
            Some(v) => selected_attr(html@, "script#episode-json"@, "data-value"@) == Some(v@),
            None => selected_attr(html@, "script#episode-json"@, "data-value"@) is None,
        },
{
    select_attr(html, "script#episode-json", "data-value")
}

} // verus!
