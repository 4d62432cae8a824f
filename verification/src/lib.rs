//! Relevance scoring for note search: a pure kernel that rates one candidate
//! note (identifier, title, path title, visibility flag) against a user query.
//!
//! Scores are exact: every contribution the scoring rules produce is a
//! multiple of 1/180, so the kernel works in integer units of 1/180 and the
//! returned value is the score times 180. A caller that wants the customary
//! fractional score divides by 180 at the boundary.

pub mod distance;
pub mod score;
pub mod text;

pub use distance::edit_distance;
pub use score::compute_score;
pub use score::compute_score_checked;
pub use score::NoteInput;
pub use score::ScoreParams;
pub use text::normalize;
pub use text::word_match;
