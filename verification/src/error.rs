//! The ways in which a run can fail.

use vstd::prelude::*;
use vstd::string::*;

verus! {

/// Why a run, or the fetch of one preset, did not come to an end.
#[derive(Debug, PartialEq)]
pub enum PipelineError {
    /// The credential is blank.
    MissingApiKey,
    /// No search is configured at all.
    NoSearches,
    /// All enabled searches were asked for and none is enabled.
    NoEnabledSearches,
    /// The one search asked for, by id, is not configured.
    PresetNotFound(String),
    /// The search has no term to look for.
    EmptyQuery,
    /// The id search failed; the text says how.
    SearchFailed(String),
    /// The detail lookup failed; the text says how.
    DetailsFailed(String),
}

/// Mathematical content of a [`PipelineError`].
pub enum ErrorView {
    MissingApiKey,
    NoSearches,
    NoEnabledSearches,
    PresetNotFound(Seq<char>),
    EmptyQuery,
    SearchFailed(Seq<char>),
    DetailsFailed(Seq<char>),
}

impl View for PipelineError {
    type V = ErrorView;

    open spec fn view(&self) -> ErrorView {
        match self {
            PipelineError::MissingApiKey => ErrorView::MissingApiKey,
            PipelineError::NoSearches => ErrorView::NoSearches,
            PipelineError::NoEnabledSearches => ErrorView::NoEnabledSearches,
            PipelineError::PresetNotFound(id) => ErrorView::PresetNotFound(id@),
            PipelineError::EmptyQuery => ErrorView::EmptyQuery,
            PipelineError::SearchFailed(cause) => ErrorView::SearchFailed(cause@),
            PipelineError::DetailsFailed(cause) => ErrorView::DetailsFailed(cause@),
        }
    }
}

/// The text shown for an error.
pub open spec fn error_text(e: PipelineError) -> Seq<char> {
    match e {
        PipelineError::MissingApiKey => "Set your YouTube Data API key in the settings panel first."@,
        PipelineError::NoSearches => "No searches configured. Add a preset in the settings panel."@,
        PipelineError::NoEnabledSearches => "Enable at least one preset before running in Any mode."@,
        PipelineError::PresetNotFound(id) => "Preset '"@ + id@ + "' not found."@,
        PipelineError::EmptyQuery => "Search query is empty. Add some terms to your preset."@,
        PipelineError::SearchFailed(cause) => "search.list failed — check API key, quotas, or restrictions: "@
            + cause@,
        PipelineError::DetailsFailed(cause) => "videos.list failed — check API key, quotas, or restrictions: "@
            + cause@,
    }
}

impl PipelineError {
    /// The text to show for this error.
    pub fn message(&self) -> (r: String)
        ensures
            r@ == error_text(*self),
    {
        match self {
            PipelineError::MissingApiKey => {
                "Set your YouTube Data API key in the settings panel first.".to_owned()
            },
            PipelineError::NoSearches => {
                "No searches configured. Add a preset in the settings panel.".to_owned()
            },
            PipelineError::NoEnabledSearches => {
                "Enable at least one preset before running in Any mode.".to_owned()
            },
            PipelineError::PresetNotFound(id) => {
                let mut s = "Preset '".to_owned();
                s.append(id.as_str());
                s.append("' not found.");
                s
            },
            PipelineError::EmptyQuery => {
                "Search query is empty. Add some terms to your preset.".to_owned()
            },
            PipelineError::SearchFailed(cause) => {
                let mut s =
                    "search.list failed — check API key, quotas, or restrictions: ".to_owned();
                s.append(cause.as_str());
                s
            },
            PipelineError::DetailsFailed(cause) => {
                let mut s =
                    "videos.list failed — check API key, quotas, or restrictions: ".to_owned();
                s.append(cause.as_str());
                s
            },
        }
    }
}

} // verus!
