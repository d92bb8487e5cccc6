//! The student's own drafts.

pub mod sandbox_drafts;
