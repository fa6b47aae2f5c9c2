//! Library for checking the continuous-integration status of a code review.
//!
//! The library has two parts: a parser for the structured descriptor that the
//! CI server embeds in a build's display name, and a selector that picks the
//! single most relevant build for a given review identifier out of the
//! listings of several CI jobs and classifies it into a reporting outcome.

pub mod config;
pub mod descriptor;
pub mod gerrit;

pub use config::Config;
pub use config::default_osci;
pub use descriptor::ChangeDescriptor;
pub use descriptor::DescriptorView;
pub use descriptor::ParseError;
pub use descriptor::parse_descriptor;
pub use descriptor::format_descriptor;
pub use gerrit::BuildDetail;
pub use gerrit::BuildResult;
pub use gerrit::BuildSummary;
pub use gerrit::JobListing;
pub use gerrit::Outcome;
pub use gerrit::Selection;
pub use gerrit::classify_detail;
pub use gerrit::display_name_to_build_number;
pub use gerrit::filter_builds;
pub use gerrit::result_glyph;
pub use gerrit::select_build;
