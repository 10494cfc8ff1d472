//! Where the files of an installation lie.

use vstd::prelude::*;
use vstd::string::StringExecFns;

verus! {

/// The path that `std::path::Path::join` makes of the path `base` and the
/// path `part`.
pub uninterp spec fn joined_path(base: Seq<char>, part: Seq<char>) -> Seq<char>;

/// The path that `std::path::Path::with_extension` makes of `path` and the
/// extension `ext`.
pub uninterp spec fn path_with_extension(path: Seq<char>, ext: Seq<char>) -> Seq<char>;

/// Calls `std::path::Path::join`. The paths go in and come out as text, and
/// since the text that goes in is valid, what comes out is the joined path
/// without loss. The contract names the result and claims nothing else.
#[verifier::external_body]
fn join(base: &str, part: &str) -> (path: String)
    ensures
        path@ == joined_path(base@, part@),
{
    std::path::Path::new(base).join(part).to_string_lossy().into_owned()
}

/// A character that parts the components of a path on some platform.
pub open spec fn is_separator(c: char) -> bool {
    c == '/' || c == '\\'
}

/// No character of `text` parts the components of a path.
pub open spec fn no_separator(text: Seq<char>) -> bool {
    forall|i: int| 0 <= i < text.len() ==> !is_separator(#[trigger] text[i])
}

/// Calls `std::path::Path::with_extension`. The paths go in and come out as
/// text, as in `join`. The call panics on an extension that holds a path
/// separator, which `requires` leaves out. The contract names the result and
/// claims nothing else.
#[verifier::external_body]
fn with_extension(path: &str, ext: &str) -> (changed: String)
    requires
        no_separator(ext@),
    ensures
        changed@ == path_with_extension(path@, ext@),
{
    std::path::Path::new(path).with_extension(ext).to_string_lossy().into_owned()
}

/// An installation: the directory under which its files lie.
pub struct Installation {
    root: String,
}

impl Installation {
    /// The directory of the installation.
    pub closed spec fn root_text(&self) -> Seq<char> {
        self.root@
    }

    /// The directory of the puzzle files.
    pub open spec fn puzzles_text(&self) -> Seq<char> {
        joined_path(self.root_text(), "puzzles"@)
    }

    /// The directory of the files with the players' progress.
    pub open spec fn save_data_text(&self) -> Seq<char> {
        joined_path(self.root_text(), "save_data"@)
    }

    /// The file that marks the directory as an installation.
    pub open spec fn indicator_text(&self) -> Seq<char> {
        joined_path(self.root_text(), ".vertex_install"@)
    }

    /// The file with the list of the offered puzzles.
    pub open spec fn network_manifest_text(&self) -> Seq<char> {
        joined_path(self.root_text(), "network_manifest.yaml"@)
    }

    /// The file with the settings.
    pub open spec fn settings_text(&self) -> Seq<char> {
        joined_path(self.root_text(), "settings.yaml"@)
    }

    /// The file of the puzzle `short_name`.
    pub open spec fn puzzle_file_text(&self, short_name: Seq<char>) -> Seq<char> {
        path_with_extension(joined_path(self.puzzles_text(), short_name), "yaml"@)
    }

    /// The file with the progress of the puzzle `short_name`.
    pub open spec fn save_data_file_text(&self, short_name: Seq<char>) -> Seq<char> {
        path_with_extension(joined_path(self.save_data_text(), short_name), "yaml"@)
    }

    /// The installation under the directory `root`.
    pub fn new(root: &str) -> (install: Installation)
        ensures
            install.root_text() == root@,
    {
        Installation { root: String::from_str(root) }
    }

    /// The directory of the installation.
    pub fn root(&self) -> (path: &str)
        ensures
            path@ == self.root_text(),
    {
        self.root.as_str()
    }

    /// The directory of the puzzle files.
    pub fn puzzles(&self) -> (path: String)
        ensures
            path@ == self.puzzles_text(),
    {
        join(self.root.as_str(), "puzzles")
    }

    /// The directory of the files with the players' progress.
    pub fn save_data(&self) -> (path: String)
        ensures
            path@ == self.save_data_text(),
    {
        join(self.root.as_str(), "save_data")
    }

    /// The file that marks the directory as an installation.
    pub fn indicator(&self) -> (path: String)
        ensures
            path@ == self.indicator_text(),
    {
        join(self.root.as_str(), ".vertex_install")
    }

    /// The file with the list of the offered puzzles.
    pub fn network_manifest(&self) -> (path: String)
        ensures
            path@ == self.network_manifest_text(),
    {
        join(self.root.as_str(), "network_manifest.yaml")
    }

    /// The file of the puzzle `short_name`.
    pub fn puzzle_file(&self, short_name: &str) -> (path: String)
        ensures
            path@ == self.puzzle_file_text(short_name@),
    {
        let dir = self.puzzles();
        let file = join(dir.as_str(), short_name);
        proof {
            reveal_strlit("yaml");
        }
        with_extension(file.as_str(), "yaml")
    }

    /// The file with the progress of the puzzle `short_name`.
    pub fn save_data_file(&self, short_name: &str) -> (path: String)
        ensures
            path@ == self.save_data_file_text(short_name@),
    {
        let dir = self.save_data();
        let file = join(dir.as_str(), short_name);
        proof {
            reveal_strlit("yaml");
        }
        with_extension(file.as_str(), "yaml")
    }

    /// The file with the settings.
    pub fn settings(&self) -> (path: String)
        ensures
            path@ == self.settings_text(),
    {
        join(self.root.as_str(), "settings.yaml")
    }

    /// The directories that an installation needs, in the order in which
    /// they are made.
    pub fn directories(&self) -> (dirs: Vec<String>)
        ensures
            dirs@.len() == 2,
            dirs@[0]@ == self.puzzles_text(),
            dirs@[1]@ == self.save_data_text(),
    {
        let mut dirs: Vec<String> = Vec::new();
        dirs.push(self.puzzles());
        dirs.push(self.save_data());
        dirs
    }
}

impl Clone for Installation {
    fn clone(&self) -> (install: Installation)
        ensures
            install.root_text() == self.root_text(),
    {
        Installation { root: self.root.clone() }
    }
}

} // verus!
