//! The record kept for each indexed path, and the indexing status.
use vstd::prelude::*;
use vstd::string::StrSliceExecFns;
use crate::text::{lower_of, lowercase};

verus! {

broadcast use vstd::string::group_string_axioms;

/// Position of the last `.` in `s`, or -1 when there is none.
pub open spec fn last_dot(s: Seq<char>) -> int
    decreases s.len(),
{
    if s.len() == 0 {
        -1
    } else if s.last() == '.' {
        s.len() - 1
    } else {
        last_dot(s.drop_last())
    }
}

/// The name `..`.
pub open spec fn is_parent_name(name: Seq<char>) -> bool {
    name.len() == 2 && name[0] == '.' && name[1] == '.'
}

/// The extension of a file name: what follows its last `.`, unless that dot
/// opens the name (a hidden file such as `.profile`) or the name is `..`.
pub open spec fn extension_of(name: Seq<char>) -> Option<Seq<char>> {
    if is_parent_name(name) || last_dot(name) <= 0 {
        None
    } else {
        Some(name.subrange(last_dot(name) + 1, name.len() as int))
    }
}

proof fn lemma_last_dot_of_prefix(s: Seq<char>, n: int)
    requires
        0 <= n <= s.len(),
        forall|k: int| n <= k < s.len() ==> s[k] != '.',
    ensures
        last_dot(s) == last_dot(s.subrange(0, n)),
    decreases s.len() - n,
{
    if n == s.len() {
        assert(s.subrange(0, n) =~= s);
    } else {
        assert(s.drop_last() =~= s.subrange(0, s.len() - 1));
        assert(s.subrange(0, s.len() - 1).subrange(0, n) =~= s.subrange(0, n));
        lemma_last_dot_of_prefix(s.drop_last(), n);
    }
}

/// One record per indexed path.
pub struct IndexEntry {
    pub name: String,
    pub name_lower: String,
    pub extension: Option<String>,
    pub is_dir: bool,
    pub modified: Option<i64>,
    pub size: Option<u64>,
}

/// The indexing pipeline's state.
#[derive(Clone, Copy, Debug, PartialEq, Eq, Structural)]
pub enum IndexStatus {
    Idle,
    Scanning,
    Watching,
    Error,
}

impl Default for IndexStatus {
    fn default() -> (r: Self)
        ensures
            r == IndexStatus::Idle,
    {
        IndexStatus::Idle
    }
}

/// A progress report: the status, how many entries are held, and the path
/// last visited, when there is one.
pub struct IndexProgress {
    pub status: IndexStatus,
    pub indexed_count: usize,
    pub current_path: Option<String>,
}

/// The characters of an optional string.
pub open spec fn opt_view(o: Option<String>) -> Option<Seq<char>> {
    match o {
        Some(s) => Some(s@),
        None => None,
    }
}

impl IndexEntry {
    /// The lowercase name is kept in step with the name.
    pub open spec fn wf(&self) -> bool {
        self.name_lower@ == lower_of(self.name@)
    }

    /// A record whose lowercase name is derived from `name`.
    pub fn new(
        name: String,
        extension: Option<String>,
        is_dir: bool,
        modified: Option<i64>,
        size: Option<u64>,
    ) -> (r: Self)
        ensures
            r.wf(),
            r.name == name,
            r.extension == extension,
            r.is_dir == is_dir,
            r.modified == modified,
            r.size == size,
    {
        let name_lower = lowercase(name.as_str());
        IndexEntry { name, name_lower, extension, is_dir, modified, size }
    }

    /// The record for a visited path from the facts its metadata gave: the
    /// extension and the size are kept for files only.
    pub fn from_metadata(
        name: String,
        is_file: bool,
        is_dir: bool,
        modified: Option<i64>,
        len: u64,
    ) -> (r: Self)
        ensures
            r.wf(),
            r.name == name,
            opt_view(r.extension) == (if is_file { extension_of(name@) } else { None }),
            r.is_dir == is_dir,
            r.modified == modified,
            r.size == (if is_file { Some(len) } else { None::<u64> }),
    {
        let extension = if is_file { file_extension(name.as_str()) } else { None };
        let size = if is_file { Some(len) } else { None };
        IndexEntry::new(name, extension, is_dir, modified, size)
    }

    /// A field-by-field copy.
    pub fn duplicate(&self) -> (r: Self)
        ensures
            r == *self,
    {
        let extension = match &self.extension {
            Some(e) => Some(e.clone()),
            None => None,
        };
        IndexEntry {
            name: self.name.clone(),
            name_lower: self.name_lower.clone(),
            extension,
            is_dir: self.is_dir,
            modified: self.modified,
            size: self.size,
        }
    }
}

/// The extension of a file name, as `extension_of` describes it.
pub fn file_extension(name: &str) -> (r: Option<String>)
    ensures
        opt_view(r) == extension_of(name@),
{
    let n = name.unicode_len();
    if n == 2 {
        let first = name.get_char(0);
        let second = name.get_char(1);
        if first == '.' && second == '.' {
            return None;
        }
        assert(!is_parent_name(name@));
    }
    let mut i: usize = n;
    while i > 0
        invariant
            i <= n,
            n == name@.len(),
            !is_parent_name(name@),
            forall|k: int| i <= k < n ==> name@[k] != '.',
        decreases i,
    {
        if name.get_char(i - 1) == '.' {
            proof {
                lemma_last_dot_of_prefix(name@, i as int);
                assert(name@.subrange(0, i as int).last() == '.');
                assert(last_dot(name@) == i - 1);
            }
            if i == 1 {
                return None;
            }
            let part = name.substring_char(i, n);
            let ext = part.to_string();
            assert(ext@ == part@);
            return Some(ext);
        }
        i = i - 1;
    }
    proof {
        lemma_last_dot_of_prefix(name@, 0);
    }
    None
}

} // verus!
