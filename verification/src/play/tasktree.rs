//! The task tree and what its view filters.

use crate::game::tree_item::TreeItem;
use vstd::prelude::*;

verus! {

/// Builds task trees.
pub struct TreeBuilder {}

/// The items of a task tree.
#[derive(Debug)]
pub struct TaskTree {
    pub items: Vec<TreeItem>,
}

/// What the tree view shows.
#[derive(Debug)]
pub struct TreeFilter {
    pub inbox_mode: bool,
    pub search_text: String,
}

impl TreeFilter {
    /// A filter in or out of inbox mode, with a search text.
    pub fn new(inbox_mode: bool, search_text: String) -> (r: Self)
        ensures
            r.inbox_mode == inbox_mode,
            r.search_text@ == search_text@,
    {
        TreeFilter { inbox_mode, search_text }
    }

    /// Whether elements are hidden: in inbox mode with no search text.
    pub fn hide_element(&self) -> (r: bool)
        ensures
            r == (self.inbox_mode && self.search_text@.len() == 0),
    {
        self.inbox_mode && self.search_text.as_str().unicode_len() == 0
    }
}

} // verus!
