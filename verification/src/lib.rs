//! Bookkeeping for compiler diagnostics shown on a language-server client.
//!
//! An incremental compiler recompiles only some files per pass, yet the
//! client must always see an up-to-date set of diagnostics. The
//! [`bookkeeper::FeedbackBookKeeper`] tracks which files currently show
//! warnings or errors and, after each pass, computes the minimal
//! [`feedback::Feedback`] diff: which paths to retract, which diagnostics to
//! publish, and which location-less messages to emit.

pub mod bookkeeper;
pub mod diagnostics;
pub mod feedback;
pub mod laws;
