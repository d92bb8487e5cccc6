//! Where a task lives: its link target and its folders.

use crate::chars::copy_string;
use crate::game::task_config::TaskEdit;
use crate::paths::{join, join_spec};
use vstd::prelude::*;

verus! {

/// The location of a task. Folders are held as resolved (canonical) paths;
/// resolving them against the file system is left to the caller.
#[derive(Debug)]
pub struct TaskLocation {
    pub target: String,
    pub line_number: usize,
    pub line: String,
    pub __origin_folder: Option<String>,
    pub __workspace_folder: Option<String>,
}

/// The characters of an optional path.
pub open spec fn opt_view(o: Option<String>) -> Option<Seq<char>> {
    match o {
        Some(s) => Some(s@),
        None => None,
    }
}

/// Copies an optional path.
fn copy_opt(o: &Option<String>) -> (r: Option<String>)
    ensures
        opt_view(r) == opt_view(*o),
{
    match o {
        Some(s) => Some(copy_string(s)),
        None => None,
    }
}

/// Whether two optional paths are equal.
fn opt_equal(a: &Option<String>, b: &Option<String>) -> (r: bool)
    ensures
        r == (opt_view(*a) == opt_view(*b)),
{
    match (a, b) {
        (Some(x), Some(y)) => *x == *y,
        (None, None) => true,
        _ => false,
    }
}

impl Clone for TaskLocation {
    fn clone(&self) -> (r: Self)
        ensures
            r.target@ == self.target@,
            r.line_number == self.line_number,
            r.line@ == self.line@,
            opt_view(r.__origin_folder) == opt_view(self.__origin_folder),
            opt_view(r.__workspace_folder) == opt_view(self.__workspace_folder),
    {
        TaskLocation {
            target: copy_string(&self.target),
            line_number: self.line_number,
            line: copy_string(&self.line),
            __origin_folder: copy_opt(&self.__origin_folder),
            __workspace_folder: copy_opt(&self.__workspace_folder),
        }
    }
}

impl TaskLocation {
    pub open spec fn folderless(&self) -> bool {
        self.__origin_folder is None && self.__workspace_folder is None
    }

    pub open spec fn link_spec(&self, mode: TaskEdit) -> bool {
        mode == TaskEdit::VIEW || self.folderless()
    }

    /// The workspace folder, falling back to the origin folder.
    pub open spec fn workspace_spec(&self) -> Option<Seq<char>> {
        if self.__workspace_folder is Some {
            opt_view(self.__workspace_folder)
        } else {
            opt_view(self.__origin_folder)
        }
    }

    /// Empty target and line, no folders.
    pub fn new() -> (r: Self)
        ensures
            r.target@ == Seq::<char>::empty(),
            r.line_number == 0,
            r.line@ == Seq::<char>::empty(),
            r.__origin_folder is None,
            r.__workspace_folder is None,
    {
        TaskLocation {
            target: String::new(),
            line_number: 0,
            line: String::new(),
            __origin_folder: None,
            __workspace_folder: None,
        }
    }

    /// Whether the task has neither folder.
    pub fn is_folderless(&self) -> (r: bool)
        ensures
            r == self.folderless(),
    {
        self.__origin_folder.is_none() && self.__workspace_folder.is_none()
    }

    /// A task is a link when it is only viewed or has no folder.
    pub fn is_link(&self, task_mode: TaskEdit) -> (r: bool)
        ensures
            r == self.link_spec(task_mode),
    {
        if task_mode == TaskEdit::VIEW {
            return true;
        }
        self.is_folderless()
    }

    /// A task is imported when it is edited and has both folders.
    pub fn is_import_type(&self, task_mode: TaskEdit) -> (r: bool)
        ensures
            r == (task_mode == TaskEdit::EDIT && self.__origin_folder is Some && self.__workspace_folder
                is Some),
    {
        task_mode == TaskEdit::EDIT && self.__origin_folder.is_some() && self.__workspace_folder.is_some()
    }

    /// A task is static when it is no link and is worked on where it lives.
    pub fn is_static_type(&self, task_mode: TaskEdit) -> (r: bool)
        ensures
            r == (!self.link_spec(task_mode) && opt_view(self.__origin_folder) == self.workspace_spec()),
    {
        if self.is_link(task_mode) {
            return false;
        }
        let o = self.get_origin_folder();
        let w = self.get_workspace_folder();
        opt_equal(&o, &w)
    }

    /// Drops both folders.
    pub fn set_remote_view_type(&mut self) -> (r: &mut Self)
        ensures
            r.__origin_folder is None,
            r.__workspace_folder is None,
            r.target@ == old(self).target@,
            r.line_number == old(self).line_number,
            r.line@ == old(self).line@,
            *final(self) == *final(r),
    {
        self.__origin_folder = None;
        self.__workspace_folder = None;
        self
    }

    /// Sets the origin folder (a resolved path).
    pub fn set_origin_folder(&mut self, folder: String) -> (r: &mut Self)
        ensures
            opt_view(r.__origin_folder) == Some(folder@),
            opt_view(r.__workspace_folder) == opt_view(old(self).__workspace_folder),
            r.target@ == old(self).target@,
            r.line_number == old(self).line_number,
            r.line@ == old(self).line@,
            *final(self) == *final(r),
    {
        self.__origin_folder = Some(folder);
        self
    }

    /// The `README.md` of the origin folder; the empty path without one.
    pub fn get_origin_readme(&self) -> (r: String)
        ensures
            r@ == match opt_view(self.__origin_folder) {
                Some(f) => join_spec(f, "README.md"@),
                None => Seq::empty(),
            },
    {
        match &self.__origin_folder {
            Some(folder) => join(folder.as_str(), "README.md"),
            None => String::new(),
        }
    }

    /// Sets the workspace folder (a resolved path).
    pub fn set_workspace_folder(&mut self, folder: String) -> (r: &mut Self)
        ensures
            opt_view(r.__workspace_folder) == Some(folder@),
            opt_view(r.__origin_folder) == opt_view(old(self).__origin_folder),
            r.target@ == old(self).target@,
            r.line_number == old(self).line_number,
            r.line@ == old(self).line@,
            *final(self) == *final(r),
    {
        self.__workspace_folder = Some(folder);
        self
    }

    /// The `README.md` of the origin folder; the empty path without one.
    pub fn set_origin_readme(&self) -> (r: String)
        ensures
            r@ == match opt_view(self.__origin_folder) {
                Some(f) => join_spec(f, "README.md"@),
                None => Seq::empty(),
            },
    {
        self.get_origin_readme()
    }

    /// The origin folder.
    pub fn get_origin_folder(&self) -> (r: Option<String>)
        ensures
            opt_view(r) == opt_view(self.__origin_folder),
    {
        copy_opt(&self.__origin_folder)
    }

    /// The workspace folder, falling back to the origin folder.
    pub fn get_workspace_folder(&self) -> (r: Option<String>)
        ensures
            opt_view(r) == self.workspace_spec(),
    {
        if self.__workspace_folder.is_some() {
            return copy_opt(&self.__workspace_folder);
        }
        copy_opt(&self.__origin_folder)
    }
}

} // verus!
