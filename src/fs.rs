//! Records that the file manager hands to its user interface.
use vstd::prelude::*;
use vstd::string::{StrSliceExecFns, StringExecFns};
use crate::entry::{extension_of, file_extension, opt_view};
use crate::text::{chars_of, contains_chars, lower_of, lowercase, occurs_in};

verus! {

/// One file or directory as shown to the user.
pub struct FileEntry {
    pub name: String,
    pub path: String,
    pub extension: Option<String>,
    pub size: Option<u64>,
    pub modified: Option<i64>,
    pub is_dir: bool,
    pub is_hidden: bool,
    pub is_symlink: bool,
}

/// An installed WSL distribution.
pub struct WslDistro {
    pub name: String,
    pub path: String,
    pub is_default: bool,
}

/// A volume or mount point offered as a place to start browsing.
pub struct DriveInfo {
    pub name: String,
    pub path: String,
}

/// A saved location, optionally bound to a numbered shortcut.
pub struct Bookmark {
    pub name: String,
    pub path: String,
    pub shortcut: Option<i32>,
}

/// What one pane shows and how it is sorted.
pub struct PaneState {
    pub path: String,
    pub sort_column: String,
    pub sort_ascending: bool,
}

/// Placement of the main window.
pub struct WindowState {
    pub x: Option<i32>,
    pub y: Option<i32>,
    pub width: u32,
    pub height: u32,
    pub maximized: bool,
}

/// The user's saved settings.
pub struct Config {
    pub bookmarks: Vec<Bookmark>,
    pub left_pane: PaneState,
    pub right_pane: PaneState,
    pub window: WindowState,
    pub show_hidden: bool,
    pub recent_paths: Vec<String>,
}

/// What is needed to undo a file operation.
pub struct UndoToken {
    pub id: String,
    pub operation: String,
    pub paths: Vec<String>,
    pub backup_paths: Vec<String>,
}

/// Failures reported to the user, each with a human-readable detail.
pub enum AppError {
    NotFound(String),
    NotADirectory(String),
    Io(String),
    PermissionDenied(String),
    Cancelled,
    InvalidOperation(String),
}

/// Relies on `dirs::home_dir`: the current user's home directory, when one
/// is known, shown as text. It depends on the environment: nothing is known
/// of the value.
#[verifier::external_body]
fn home_dir_text() -> (r: Option<String>) {
    match dirs::home_dir() {
        Some(p) => Some(p.display().to_string()),
        None => None,
    }
}

impl Config {
    /// The settings of a first start for a user whose home is `home`: one
    /// bookmark to the home directory on shortcut 1, both panes there sorted
    /// by name ascending, a 1200 by 800 window placed by the system, hidden
    /// files not shown and no recent paths.
    pub open spec fn defaults_for(&self, home: Seq<char>) -> bool {
        &&& self.bookmarks@.len() == 1
        &&& self.bookmarks@[0].name@ == "Home"@
        &&& self.bookmarks@[0].path@ == home
        &&& self.bookmarks@[0].shortcut == Some(1i32)
        &&& self.left_pane.path@ == home
        &&& self.left_pane.sort_column@ == "name"@
        &&& self.left_pane.sort_ascending
        &&& self.right_pane.path@ == home
        &&& self.right_pane.sort_column@ == "name"@
        &&& self.right_pane.sort_ascending
        &&& self.window.x is None
        &&& self.window.y is None
        &&& self.window.width == 1200
        &&& self.window.height == 800
        &&& !self.window.maximized
        &&& !self.show_hidden
        &&& self.recent_paths@.len() == 0
    }

    /// The settings of a first start for the home directory `home`.
    pub fn with_home(home: String) -> (r: Config)
        ensures
            r.defaults_for(home@),
    {
        let bookmark = Bookmark {
            name: "Home".to_string(),
            path: home.clone(),
            shortcut: Some(1),
        };
        let mut bookmarks: Vec<Bookmark> = Vec::new();
        bookmarks.push(bookmark);
        Config {
            bookmarks,
            left_pane: PaneState {
                path: home.clone(),
                sort_column: "name".to_string(),
                sort_ascending: true,
            },
            right_pane: PaneState { path: home, sort_column: "name".to_string(), sort_ascending: true },
            window: WindowState { x: None, y: None, width: 1200, height: 800, maximized: false },
            show_hidden: false,
            recent_paths: Vec::new(),
        }
    }
}

impl Default for Config {
    /// The settings of a first start for the current user; `/` stands in
    /// for a home directory that cannot be found.
    fn default() -> (r: Self)
        ensures
            exists|home: Seq<char>| r.defaults_for(home),
    {
        let home = match home_dir_text() {
            Some(h) => h,
            None => "/".to_string(),
        };
        Config::with_home(home)
    }
}

impl FileEntry {
    /// The record for a directory entry from its name, its path and the facts
    /// its metadata gave: the extension and the size are kept for files only,
    /// and a name that starts with a dot is hidden.
    pub fn from_metadata(
        name: String,
        path: String,
        is_file: bool,
        is_dir: bool,
        is_symlink: bool,
        modified: Option<i64>,
        len: u64,
    ) -> (r: FileEntry)
        ensures
            r.name == name,
            r.path == path,
            opt_view(r.extension) == (if is_file { extension_of(name@) } else { None }),
            r.size == (if is_file { Some(len) } else { None::<u64> }),
            r.modified == modified,
            r.is_dir == is_dir,
            r.is_hidden == (name@.len() > 0 && name@[0] == '.'),
            r.is_symlink == is_symlink,
    {
        let extension = if is_file { file_extension(name.as_str()) } else { None };
        let is_hidden = if name.as_str().is_empty() { false } else { name.as_str().get_char(0) == '.' };
        FileEntry {
            name,
            path,
            extension,
            size: if is_file { Some(len) } else { None },
            modified,
            is_dir,
            is_hidden,
            is_symlink,
        }
    }
}

/// Whether the name holds the lowercase query, compared without regard to
/// case.
pub fn name_matches(name: &str, query_lower: &str) -> (r: bool)
    ensures
        r == occurs_in(query_lower@, lower_of(name@)),
{
    let lowered = lowercase(name);
    contains_chars(&chars_of(lowered.as_str()), &chars_of(query_lower))
}

impl AppError {
    /// The text shown to the user: the kind of failure, then its detail.
    pub open spec fn spec_message(&self) -> Seq<char> {
        match self {
            AppError::NotFound(d) => "Path not found: "@ + d@,
            AppError::NotADirectory(d) => "Not a directory: "@ + d@,
            AppError::Io(d) => "IO error: "@ + d@,
            AppError::PermissionDenied(d) => "Permission denied: "@ + d@,
            AppError::Cancelled => "Operation cancelled"@,
            AppError::InvalidOperation(d) => "Invalid operation: "@ + d@,
        }
    }

    /// The text shown to the user.
    pub fn message(&self) -> (r: String)
        ensures
            r@ == self.spec_message(),
    {
        match self {
            AppError::NotFound(d) => String::from_str("Path not found: ").concat(d.as_str()),
            AppError::NotADirectory(d) => String::from_str("Not a directory: ").concat(d.as_str()),
            AppError::Io(d) => String::from_str("IO error: ").concat(d.as_str()),
            AppError::PermissionDenied(d) => String::from_str("Permission denied: ").concat(
                d.as_str(),
            ),
            AppError::Cancelled => String::from_str("Operation cancelled"),
            AppError::InvalidOperation(d) => String::from_str("Invalid operation: ").concat(
                d.as_str(),
            ),
        }
    }
}

impl UndoToken {
    /// The token recorded when `paths` are moved to the trash under `id`.
    pub fn for_delete(id: String, paths: &Vec<String>) -> (r: UndoToken)
        ensures
            r.id == id,
            r.operation@ == "delete"@,
            r.paths@ == paths@,
            r.backup_paths@.len() == 0,
    {
        let mut copied: Vec<String> = Vec::new();
        let mut i: usize = 0;
        while i < paths.len()
            invariant
                i <= paths@.len(),
                copied@ == paths@.take(i as int),
            decreases paths@.len() - i,
        {
            copied.push(paths[i].clone());
            assert(copied@ =~= paths@.take(i + 1));
            i = i + 1;
        }
        assert(copied@ =~= paths@);
        UndoToken {
            id,
            operation: String::from_str("delete"),
            paths: copied,
            backup_paths: Vec::new(),
        }
    }
}

/// The UNC path under which Windows shows a WSL distribution.
pub open spec fn wsl_path(name: Seq<char>) -> Seq<char> {
    "\\\\wsl$\\"@ + name
}

/// The names that are not empty, in order.
pub open spec fn nonempty_names(names: Seq<String>) -> Seq<Seq<char>>
    decreases names.len(),
{
    if names.len() == 0 {
        Seq::empty()
    } else if names.last()@.len() == 0 {
        nonempty_names(names.drop_last())
    } else {
        nonempty_names(names.drop_last()).push(names.last()@)
    }
}

impl WslDistro {
    /// The distributions named, one per non-empty name in order, each under
    /// its UNC path; the first is the default.
    pub fn listing(names: &Vec<String>) -> (r: Vec<WslDistro>)
        ensures
            r@.len() == nonempty_names(names@).len(),
            forall|i: int|
                0 <= i < r@.len() ==> {
                    &&& (#[trigger] r@[i]).name@ == nonempty_names(names@)[i]
                    &&& r@[i].path@ == wsl_path(nonempty_names(names@)[i])
                    &&& r@[i].is_default == (i == 0)
                },
    {
        let mut r: Vec<WslDistro> = Vec::new();
        let mut k: usize = 0;
        while k < names.len()
            invariant
                k <= names@.len(),
                r@.len() == nonempty_names(names@.take(k as int)).len(),
                forall|i: int|
                    0 <= i < r@.len() ==> {
                        &&& (#[trigger] r@[i]).name@ == nonempty_names(names@.take(k as int))[i]
                        &&& r@[i].path@ == wsl_path(nonempty_names(names@.take(k as int))[i])
                        &&& r@[i].is_default == (i == 0)
                    },
            decreases names@.len() - k,
        {
            proof {
                assert(names@.take(k + 1).drop_last() =~= names@.take(k as int));
            }
            let name = &names[k];
            if !name.as_str().is_empty() {
                let path = String::from_str("\\\\wsl$\\").concat(name.as_str());
                let is_default = r.len() == 0;
                r.push(WslDistro { name: name.clone(), path, is_default });
            }
            k = k + 1;
        }
        proof {
            assert(names@.take(names@.len() as int) =~= names@);
        }
        r
    }
}

} // verus!
