//! A cache of cloned git repositories: where each repository goes, which
//! `git` commands bring it in or up to date, and when to update it.
//! Running the commands, locking and reading file times are left to the
//! caller.

use crate::chars::{char_string, copy_string, push_char, push_str};
use crate::keymap::{insert_entry, lookup, KeyMap};
use crate::paths::{join, join_spec, std_with_extension, with_extension};
use crate::strs::strings_view;
use sha1::{Digest, Sha1};
use vstd::prelude::*;

verus! {

/// When cached repositories are updated.
#[derive(Debug, Clone, Copy, PartialEq, Eq, Structural)]
pub enum UpdateMode {
    ALWAYS,
    NEVER,
    IfOlder,
}

/// The SHA-1 digest of the UTF-8 bytes of a text.
pub uninterp spec fn sha1_of_text(s: Seq<char>) -> Seq<u8>;

/// Calls `sha1::Sha1::digest` on the bytes of `s`. The claim: the result is
/// the named digest of `s`, 20 bytes long (the output size of SHA-1).
#[verifier::external_body]
fn sha1_digest(s: &str) -> (r: Vec<u8>)
    ensures
        r@ == sha1_of_text(s@),
        r@.len() == 20,
{
    Sha1::digest(s.as_bytes()).to_vec()
}

/// The lower-case hexadecimal digit of a value below 16.
pub open spec fn hex_digit(n: u8) -> char {
    if n < 10 {
        (('0' as u8) + n) as char
    } else {
        (('a' as u8) + n - 10) as char
    }
}

/// Bytes as lower-case hexadecimal, two digits per byte, high digit first.
pub open spec fn hex_spec(b: Seq<u8>) -> Seq<char> {
    Seq::new(
        2 * b.len(),
        |i: int|
            if i % 2 == 0 {
                hex_digit(b[i / 2] / 16)
            } else {
                hex_digit(b[i / 2] % 16)
            },
    )
}

/// Calls `hex::encode`. The claim: two lower-case hexadecimal digits per
/// byte, the high one first (the crate's table `0123456789abcdef`).
#[verifier::external_body]
fn hex_encode(b: &Vec<u8>) -> (r: String)
    ensures
        r@ == hex_spec(b@),
{
    hex::encode(b)
}

/// The next step in bringing a repository into the cache.
#[derive(Debug, Clone, Copy, PartialEq, Eq, Structural)]
pub enum CacheStep {
    /// Clone the repository into its missing folder.
    Clone,
    /// Bring the cloned repository up to date.
    Update,
    /// Remove the folder and clone again, after a failed update.
    Reclone,
    /// The folder is ready.
    Done,
}

/// A cache of repositories under one folder.
#[derive(Debug)]
pub struct GitCache {
    pub cache_dir: String,
    pub update_mode: UpdateMode,
    pub updated: KeyMap<bool>,
    pub max_age_secs: u64,
}

/// The arguments of the `git` call that clones `url` into `path`: a shallow
/// clone of every branch without file contents.
pub open spec fn clone_args_spec(url: Seq<char>, path: Seq<char>) -> Seq<Seq<char>> {
    seq!["clone"@, "--depth"@, "1"@, "--filter=blob:none"@, "--no-single-branch"@, url, path]
}

fn strings_of(v: Vec<&str>) -> (r: Vec<String>)
    ensures
        strings_view(r@) == Seq::new(v@.len(), |i: int| v@[i]@),
{
    let mut r: Vec<String> = Vec::new();
    let mut i: usize = 0;
    while i < v.len()
        invariant
            i <= v@.len(),
            strings_view(r@) == Seq::new(i as nat, |j: int| v@[j]@),
        decreases v.len() - i,
    {
        let s = v[i].to_string();
        let ghost before = r@;
        r.push(s);
        proof {
            crate::strs::lemma_strings_view_push(before, s);
            assert(strings_view(r@) =~= Seq::new((i + 1) as nat, |j: int| v@[j]@));
        }
        i = i + 1;
    }
    r
}

impl GitCache {
    /// A cache under `cache_dir`: entries older than `max_age_secs` (an hour
    /// when absent) count as expired, updates happen when older (unless
    /// another mode is given), nothing updated yet. Making the folder is
    /// left to the caller.
    pub fn new(cache_dir: String, max_age_secs: Option<u64>, update_mode: Option<UpdateMode>) -> (r: Self)
        ensures
            r.cache_dir@ == cache_dir@,
            r.max_age_secs == match max_age_secs {
                Some(s) => s,
                None => 3600,
            },
            r.update_mode == match update_mode {
                Some(m) => m,
                None => UpdateMode::IfOlder,
            },
            r.updated@.len() == 0,
    {
        GitCache {
            cache_dir,
            update_mode: match update_mode {
                Some(m) => m,
                None => UpdateMode::IfOlder,
            },
            updated: KeyMap::new(),
            max_age_secs: match max_age_secs {
                Some(s) => s,
                None => 3600,
            },
        }
    }

    /// The folder of a repository: the hexadecimal SHA-1 of its address,
    /// under the cache folder.
    pub fn __repo_dir(&self, url: &str) -> (r: String)
        ensures
            r@ == join_spec(self.cache_dir@, hex_spec(sha1_of_text(url@))),
    {
        let digest = sha1_digest(url);
        let name = hex_encode(&digest);
        join(self.cache_dir.as_str(), name.as_str())
    }

    /// The lock file of a repository folder: the folder with the extension
    /// `lock`.
    pub fn __lock_path(&self, repo_path: &str) -> (r: String)
        ensures
            r@ == std_with_extension(repo_path@, "lock"@),
    {
        proof {
            reveal_strlit("lock");
        }
        with_extension(repo_path, "lock")
    }

    /// The arguments of the `git` call that clones `url` into `path`.
    pub fn clone_repo(&self, url: &str, path: &str) -> (r: Vec<String>)
        ensures
            strings_view(r@) == clone_args_spec(url@, path@),
    {
        let r = strings_of(vec!["clone", "--depth", "1", "--filter=blob:none", "--no-single-branch", url, path]);
        assert(strings_view(r@) =~= clone_args_spec(url@, path@));
        r
    }

    /// The `git` calls, run inside a repository in this order, that bring it
    /// up to date: fetch with pruning, hard reset to `origin/HEAD`, clean.
    pub fn update_commands(&self) -> (r: Vec<Vec<String>>)
        ensures
            r@.len() == 3,
            strings_view(r@[0]@) == seq!["fetch"@, "--prune"@, "origin"@],
            strings_view(r@[1]@) == seq!["reset"@, "--hard"@, "origin/HEAD"@],
            strings_view(r@[2]@) == seq!["clean"@, "-fd"@],
    {
        let a = strings_of(vec!["fetch", "--prune", "origin"]);
        let b = strings_of(vec!["reset", "--hard", "origin/HEAD"]);
        let c = strings_of(vec!["clean", "-fd"]);
        assert(strings_view(a@) =~= seq!["fetch"@, "--prune"@, "origin"@]);
        assert(strings_view(b@) =~= seq!["reset"@, "--hard"@, "origin/HEAD"@]);
        assert(strings_view(c@) =~= seq!["clean"@, "-fd"@]);
        vec![a, b, c]
    }

    /// Records that `repo` was brought up to date (once the calls of
    /// [`GitCache::update_commands`] succeeded).
    pub fn update(&mut self, repo: &str)
        ensures
            final(self).updated@ == insert_entry(old(self).updated@, repo@, true),
            final(self).cache_dir@ == old(self).cache_dir@,
            final(self).update_mode == old(self).update_mode,
            final(self).max_age_secs == old(self).max_age_secs,
    {
        self.updated.insert(repo.to_string(), true);
    }

    /// Whether a cached repository is to be updated: when it is expired, or
    /// when the cache always updates and it was not updated yet.
    pub fn should_update(&self, repo: &str, expired: bool) -> (r: bool)
        ensures
            r == (expired || (self.update_mode == UpdateMode::ALWAYS && lookup(self.updated@, repo@) != Some(
                true,
            ))),
    {
        let flag = match self.updated.get(repo) {
            Some(b) => *b,
            None => false,
        };
        expired || (self.update_mode == UpdateMode::ALWAYS && !flag)
    }

    /// The step that [`GitCache::get_step`] gives.
    pub open spec fn get_step_spec(&self, repo: Seq<char>, exists: bool, expired: bool, update_ok: Option<bool>) -> CacheStep {
        if !exists {
            CacheStep::Clone
        } else {
            match update_ok {
                Some(true) => CacheStep::Done,
                Some(false) => CacheStep::Reclone,
                None => if expired || (self.update_mode == UpdateMode::ALWAYS && lookup(self.updated@, repo) != Some(
                    true,
                )) {
                    CacheStep::Update
                } else {
                    CacheStep::Done
                },
            }
        }
    }

    /// The next step for the repository folder `repo`, given whether the
    /// folder exists, whether it is expired and how an update went, if one
    /// was made: clone a missing folder; after an update, done when it
    /// succeeded and clone again when it failed; else update when
    /// [`GitCache::should_update`] says so, and be done otherwise.
    pub fn get_step(&self, repo: &str, exists: bool, expired: bool, update_ok: Option<bool>) -> (r: CacheStep)
        ensures
            r == self.get_step_spec(repo@, exists, expired, update_ok),
    {
        if !exists {
            return CacheStep::Clone;
        }
        match update_ok {
            Some(true) => CacheStep::Done,
            Some(false) => CacheStep::Reclone,
            None => if self.should_update(repo, expired) {
                CacheStep::Update
            } else {
                CacheStep::Done
            },
        }
    }

    /// Whether a repository last fetched `age_secs` ago is expired.
    pub fn is_expired(&self, age_secs: Option<u64>) -> (r: bool)
        ensures
            r == match age_secs {
                Some(a) => a > self.max_age_secs,
                None => true,
            },
    {
        match age_secs {
            Some(a) => a > self.max_age_secs,
            None => true,
        }
    }
}

} // verus!
