//! Identity of an item of the task tree: its source, key and title.

use crate::chars::{copy_string, push_char, push_str};
use crate::rtext::{cells_of, RText};
use vstd::prelude::*;

verus! {

/// Display state of a tree item.
#[derive(Debug)]
pub struct TreeUi {
    pub ligature: RText,
    pub visible: bool,
    pub is_requirement_color: String,
}

impl TreeUi {
    /// No ligature, not visible, no requirement colour.
    pub fn new() -> (r: TreeUi)
        ensures
            r.ligature@ == Seq::<(Seq<char>, Seq<char>)>::empty(),
            !r.visible,
            r.is_requirement_color@ == Seq::<char>::empty(),
    {
        TreeUi { ligature: RText::new(), visible: false, is_requirement_color: String::new() }
    }
}

impl Clone for TreeUi {
    fn clone(&self) -> (r: Self)
        ensures
            r.ligature@ == self.ligature@,
            r.visible == self.visible,
            r.is_requirement_color@ == self.is_requirement_color@,
    {
        TreeUi {
            ligature: self.ligature.duplicate(),
            visible: self.visible,
            is_requirement_color: copy_string(&self.is_requirement_color),
        }
    }
}

/// The abstract value of a [`TreeItem`].
pub struct TreeItemView {
    pub remote_name: Seq<char>,
    pub key: Seq<char>,
    pub title: Seq<char>,
}

/// An item of the task tree: the source it comes from, its key and title.
#[derive(Debug)]
pub struct TreeItem {
    remote_name: String,
    key: String,
    title: String,
}

impl View for TreeItem {
    type V = TreeItemView;

    closed spec fn view(&self) -> TreeItemView {
        TreeItemView { remote_name: self.remote_name@, key: self.key@, title: self.title@ }
    }
}

/// A key without one leading `@`.
pub open spec fn strip_at(key: Seq<char>) -> Seq<char> {
    if key.len() > 0 && key[0] == '@' {
        key.skip(1)
    } else {
        key
    }
}

/// `remote@key`.
pub open spec fn full_key_of(remote: Seq<char>, key: Seq<char>) -> Seq<char> {
    remote + seq!['@'] + key
}

impl Clone for TreeItem {
    fn clone(&self) -> (r: Self)
        ensures
            r@ == self@,
    {
        TreeItem {
            remote_name: copy_string(&self.remote_name),
            key: copy_string(&self.key),
            title: copy_string(&self.title),
        }
    }
}

impl TreeItem {
    /// Empty remote name, key and title.
    pub fn new() -> (r: TreeItem)
        ensures
            r@.remote_name == Seq::<char>::empty(),
            r@.key == Seq::<char>::empty(),
            r@.title == Seq::<char>::empty(),
    {
        TreeItem { remote_name: String::new(), key: String::new(), title: String::new() }
    }

    /// The name of the source the item comes from.
    pub fn get_remote_name(&self) -> (r: &str)
        ensures
            r@ == self@.remote_name,
    {
        self.remote_name.as_str()
    }

    /// `remote@key`.
    pub fn get_full_key(&self) -> (r: String)
        ensures
            r@ == full_key_of(self@.remote_name, self@.key),
    {
        let mut out = copy_string(&self.remote_name);
        push_char(&mut out, '@');
        push_str(&mut out, self.key.as_str());
        out
    }

    /// The key.
    pub fn get_key(&self) -> (r: &str)
        ensures
            r@ == self@.key,
    {
        self.key.as_str()
    }

    /// The title.
    pub fn get_title(&self) -> (r: &str)
        ensures
            r@ == self@.title,
    {
        self.title.as_str()
    }

    /// Sets the source name.
    pub fn set_remote_name(&mut self, remote_name: &str) -> (r: &mut Self)
        ensures
            r@ == (TreeItemView { remote_name: remote_name@, ..old(self)@ }),
            *final(self) == *final(r),
    {
        self.remote_name = remote_name.to_string();
        self
    }

    /// Sets the key, without one leading `@`.
    pub fn set_key(&mut self, key: String) -> (r: &mut Self)
        ensures
            r@ == (TreeItemView { key: strip_at(key@), ..old(self)@ }),
            *final(self) == *final(r),
    {
        let n = key.as_str().unicode_len();
        if n > 0 && key.as_str().get_char(0) == '@' {
            let rest = key.as_str().substring_char(1, n);
            self.key = rest.to_string();
        } else {
            self.key = key;
        }
        self
    }

    /// Sets the title.
    pub fn set_title(&mut self, title: String) -> (r: &mut Self)
        ensures
            r@ == (TreeItemView { title: title@, ..old(self)@ }),
            *final(self) == *final(r),
    {
        self.title = title;
        self
    }
}

/// Types that have a tree identity.
pub trait HasTreeIdentity {
    /// The identity of the item.
    fn identity(&self) -> &TreeItem;
}

impl HasTreeIdentity for TreeItem {
    fn identity(&self) -> (r: &TreeItem)
        ensures
            r == self,
    {
        self
    }
}

} // verus!
