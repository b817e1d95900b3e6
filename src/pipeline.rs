use crate::configuration::{EpubConfiguration, Settings};
use crate::image_downloader::DownloadImage;
use vstd::prelude::*;
use crate::sequence::chars_of;
use vstd::string::{StrSliceExecFns, StringExecFns};

verus! {

/// Where a run stands. Each stage is one piece of outside work (fetching,
/// descrambling, packaging) whose outcome decides the next stage.
#[derive(Clone, Copy, Debug, PartialEq, Eq, Structural)]
pub enum Stage {
    /// Descramble the images already in the destination directory.
    ProcessExisting,
    /// Package the images already in the destination directory.
    ConvertExisting,
    /// Fetch and read the chapter's description.
    ResolveMetadata,
    /// Fetch the cover image.
    FetchCover,
    /// Fetch (and descramble if needed) the page job at this position.
    FetchPage(usize),
    /// Package the fetched pages into the archive.
    Package,
    /// The run is over and succeeded.
    Done,
    /// The run stopped at its first failure.
    Failed,
}

pub open spec fn spec_start(process_only: bool, convert_only: bool) -> Stage {
    if process_only {
        Stage::ProcessExisting
    } else if convert_only {
        Stage::ConvertExisting
    } else {
        Stage::ResolveMetadata
    }
}

/// The stage after `stage`, given whether its work succeeded; `jobs` is the
/// number of page fetch jobs.
pub open spec fn spec_advance(stage: Stage, convert_only: bool, jobs: nat, ok: bool) -> Stage {
    match stage {
        Stage::Done => Stage::Done,
        Stage::Failed => Stage::Failed,
        _ => if !ok {
            Stage::Failed
        } else {
            match stage {
                Stage::ProcessExisting => if convert_only {
                    Stage::ConvertExisting
                } else {
                    Stage::Done
                },
                Stage::ConvertExisting => Stage::Done,
                Stage::ResolveMetadata => Stage::FetchCover,
                Stage::FetchCover => if jobs > 0 {
                    Stage::FetchPage(0)
                } else {
                    Stage::Package
                },
                Stage::FetchPage(i) => if i + 1 < jobs {
                    Stage::FetchPage((i + 1) as usize)
                } else {
                    Stage::Package
                },
                _ => Stage::Done,
            }
        },
    }
}

/// The stage a run reaches from `start` after the given outcomes.
pub open spec fn stage_after(start: Stage, convert_only: bool, jobs: nat, outcomes: Seq<bool>) -> Stage
    decreases outcomes.len(),
{
    if outcomes.len() == 0 {
        start
    } else {
        spec_advance(
            stage_after(start, convert_only, jobs, outcomes.drop_last()),
            convert_only,
            jobs,
            outcomes.last(),
        )
    }
}

/// First stage of a run: descrambling what is on disk, packaging what is on
/// disk, or the full fetch.
pub fn start(process_only: bool, convert_only: bool) -> (r: Stage)
    ensures
        r == spec_start(process_only, convert_only),
{
    if process_only {
        Stage::ProcessExisting
    } else if convert_only {
        Stage::ConvertExisting
    } else {
        Stage::ResolveMetadata
    }
}

/// Next stage of a run once the work of `stage` has succeeded (`ok`) or
/// failed. Any failure ends the run.
pub fn advance(stage: Stage, convert_only: bool, jobs: usize, ok: bool) -> (r: Stage)
    ensures
        r == spec_advance(stage, convert_only, jobs as nat, ok),
{
    match stage {
        Stage::Done => Stage::Done,
        Stage::Failed => Stage::Failed,
        _ => if !ok {
            Stage::Failed
        } else {
            match stage {
                Stage::ProcessExisting => if convert_only {
                    Stage::ConvertExisting
                } else {
                    Stage::Done
                },
                Stage::ConvertExisting => Stage::Done,
                Stage::ResolveMetadata => Stage::FetchCover,
                Stage::FetchCover => if jobs > 0 {
                    Stage::FetchPage(0)
                } else {
                    Stage::Package
                },
                Stage::FetchPage(i) => if i < jobs && i + 1 < jobs {
                    Stage::FetchPage(i + 1)
                } else {
                    Stage::Package
                },
                _ => Stage::Done,
            }
        },
    }
}

/// Fail-fast: once one page fetch fails, every later stage of the run is
/// `Failed`, so the run never reaches packaging.
pub proof fn page_failure_aborts_run(
    start: Stage,
    convert_only: bool,
    jobs: nat,
    outcomes: Seq<bool>,
    k: int,
    m: int,
)
    requires
        0 <= k < m <= outcomes.len(),
        stage_after(start, convert_only, jobs, outcomes.take(k)) is FetchPage,
        !outcomes[k],
    ensures
        stage_after(start, convert_only, jobs, outcomes.take(m)) == Stage::Failed,
    decreases m - k,
{
    assert(outcomes.take(m).drop_last() =~= outcomes.take(m - 1));
    if m > k + 1 {
        page_failure_aborts_run(start, convert_only, jobs, outcomes, k, m - 1);
    }
}

/// The text after the last `/`, or all of it where there is none.
pub open spec fn last_segment(s: Seq<char>) -> Seq<char>
    decreases s.len(),
{
    if s.len() == 0 {
        s
    } else if s.last() == '/' {
        Seq::empty()
    } else {
        last_segment(s.drop_last()).push(s.last())
    }
}

proof fn lemma_last_segment(s: Seq<char>, start: int)
    requires
        0 <= start <= s.len(),
        start == 0 || s[start - 1] == '/',
        forall|k: int| start <= k < s.len() ==> s[k] != '/',
    ensures
        last_segment(s) =~= s.subrange(start, s.len() as int),
    decreases s.len(),
{
    if s.len() > start {
        lemma_last_segment(s.drop_last(), start);
    }
}

/// The text after the last `/` of `s`, or all of it where there is none.
fn after_last_slash(s: &str) -> (r: &str)
    ensures
        r@ == last_segment(s@),
{
    let c = chars_of(s);
    let mut start: usize = c.len();
    while start > 0 && c[start - 1] != '/'
        invariant
            c@ == s@,
            start <= c@.len(),
            forall|k: int| start <= k < c@.len() ==> c@[k] != '/',
        decreases start,
    {
        start -= 1;
    }
    proof {
        lemma_last_segment(s@, start as int);
    }
    s.substring_char(start, c.len())
}

/// Directory of a chapter: named after the last path segment of its URL,
/// under `destination`.
pub fn chapter_directory(destination: &str, url: &str) -> (r: String)
    ensures
        r@ == destination@ + seq!['/'] + last_segment(url@),
{
    proof {
        reveal_strlit("/");
    }
    let segment = after_last_slash(url);
    String::from_str(destination).concat("/").concat(segment)
}

/// The job that fetches the cover into `dir`, descrambled when `drm` holds.
pub fn cover_download(dir: &str, cover_url: &str, cover_name: &str, drm: bool) -> (r: DownloadImage)
    ensures
        r.url@ == cover_url@,
        r.target_file@ == dir@ + seq!['/'] + cover_name@,
        r.drm == drm,
{
    proof {
        reveal_strlit("/");
    }
    DownloadImage {
        url: String::from_str(cover_url),
        target_file: String::from_str(dir).concat("/").concat(cover_name),
        drm,
    }
}

/// Settings of a run on the chapter at `url`: files go to the chapter's
/// directory under `destination`, the archive is `output.epub` and the cover
/// `cover.jpg`; title and date are filled in once the chapter is read.
pub fn settings_for(url: &str, destination: &str, process_only: bool, convert_only: bool) -> (r:
    Settings)
    ensures
        r.source@ == url@,
        r.destination@ == destination@ + seq!['/'] + last_segment(url@),
        r.epub_file_name@ == "output.epub"@,
        r.process_only == process_only,
        r.convert_only == convert_only,
        r.epub_configuration.title@ == Seq::<char>::empty(),
        r.epub_configuration.published_at@ == Seq::<char>::empty(),
        r.epub_configuration.cover_image@ == "cover.jpg"@,
{
    Settings {
        source: String::from_str(url),
        destination: chapter_directory(destination, url),
        epub_file_name: String::from_str("output.epub"),
        process_only,
        convert_only,
        epub_configuration: EpubConfiguration {
            title: String::new(),
            published_at: String::new(),
            cover_image: String::from_str("cover.jpg"),
        },
    }
}

} // verus!
