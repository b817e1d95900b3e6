use vstd::prelude::*;

verus! {

/// What a run works on and how.
pub struct Settings {
    pub source: String,
    pub destination: String,
    pub epub_file_name: String,
    pub process_only: bool,
    pub convert_only: bool,
    pub epub_configuration: EpubConfiguration,
}

/// Metadata of the archive that a run produces.
pub struct EpubConfiguration {
    pub title: String,
    pub published_at: String,
    pub cover_image: String,
}

} // verus!
