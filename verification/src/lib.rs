//! Search aggregation and filtering for saved video-search presets.
//!
//! A run turns a set of saved searches into one list of videos: each search
//! is fetched page by page, every fetched video goes through the
//! post-filter, the results of the searches are merged by video id, and the
//! merged list is handed on newest first together with the counts of the
//! run.
//!
//! The library makes no request itself. It says which request comes next
//! and takes the answer in; whoever drives it makes the request. Every
//! function carries a contract over a mathematical model of its data, and
//! every contract is proved.
//!
//! - [`prefs`]: the configuration, duration buckets and the block list
//! - [`query`]: from a saved search to query text and request parameters
//! - [`window`]: the publish-date window of a search
//! - [`filters`]: the post-filter
//! - [`fetcher`]: the paginated fetch of one search
//! - [`enrich`]: channel metadata for the fetched videos
//! - [`aggregate`]: planning a run, merging and ordering its results
//! - [`run`]: the course of a run over its searches, and its report
//! - [`request`]: request addresses, credential fallback, failure texts
//! - [`duration_filters`]: the duration bucket selection and its toggles
//! - [`session`], [`labels`]: what is shown of a run
//! - [`preset_editor`], [`presets`]: editing, saving and importing searches
//! - [`text`], [`types`], [`error`]: text primitives, records, errors

pub mod aggregate;
pub mod duration_filters;
pub mod enrich;
pub mod error;
pub mod fetcher;
pub mod filters;
pub mod labels;
pub mod prefs;
pub mod preset_editor;
pub mod presets;
pub mod query;
pub mod request;
pub mod run;
pub mod session;
pub mod text;
pub mod types;
pub mod window;
