//! The directories the program keeps its files in.

use vstd::prelude::*;

verus! {

/// A plain file or directory name: not empty, not `.` or `..`, without a
/// separator or a drive colon.
pub open spec fn is_plain_name(s: Seq<char>) -> bool {
    &&& s.len() > 0
    &&& s != seq!['.']
    &&& s != seq!['.', '.']
    &&& forall|i: int| 0 <= i < s.len() ==> s[i] != '/' && s[i] != '\\' && s[i] != ':'
}

/// `s` starts with the verbatim prefix `\\?\`, under which Windows
/// normalises a joined path.
pub open spec fn has_verbatim_prefix(s: Seq<char>) -> bool {
    s.len() >= 4 && s[0] == '\\' && s[1] == '\\' && s[2] == '?' && s[3] == '\\'
}

/// `r` is `base` followed by `name`, with nothing or one `/` or `\\`
/// between.
pub open spec fn joined(r: Seq<char>, base: Seq<char>, name: Seq<char>) -> bool {
    ||| r == base + name
    ||| r == base + seq!['/'] + name
    ||| r == base + seq!['\\'] + name
}

/// Relies on `Path::join`: a relative name is appended to the base, with
/// the separator `/` or `\\` in between unless the base is empty or
/// already ends with one (or, on Windows, is a bare drive such as `C:`). A base with a verbatim prefix is rebuilt from
/// its components, so nothing is said of it.
#[verifier::external_body]
pub(crate) fn join_path(base: &str, name: &str) -> (r: String)
    requires
        is_plain_name(name@),
    ensures
        !has_verbatim_prefix(base@) ==> joined(r@, base@, name@),
{
    std::path::Path::new(base).join(name).to_string_lossy().into_owned()
}

/// Relies on `directories::ProjectDirs::from`: the project's configuration
/// and local data directories, when the system gives a home directory.
/// They depend on the environment, so nothing is promised of them.
#[verifier::external_body]
fn project_dirs(qualifier: &str, organization: &str, application: &str) -> Option<(String, String)> {
    match ::directories::ProjectDirs::from(qualifier, organization, application) {
        Some(p) => Some(
            (
                p.config_dir().to_string_lossy().into_owned(),
                p.data_local_dir().to_string_lossy().into_owned(),
            ),
        ),
        None => None,
    }
}

/// The name of the directory, inside the local data directory, that logs go to.
pub const LOGS_DIR_NAME: &'static str = "logs";

/// Where the program keeps its configuration, data and logs.
#[derive(Debug, Clone, PartialEq, Eq)]
pub struct Directories {
    config_dir: String,
    data_local_dir: String,
}

impl Directories {
    pub closed spec fn config_dir_spec(&self) -> Seq<char> {
        self.config_dir@
    }

    pub closed spec fn data_local_dir_spec(&self) -> Seq<char> {
        self.data_local_dir@
    }

    /// The directories of the program, or `None` when the system has no
    /// home directory to put them in.
    pub fn new() -> (r: Option<Directories>) {
        match project_dirs("com", "CryptoGladi", "obsidian-tidy") {
            Some((config_dir, data_local_dir)) => Some(Directories { config_dir, data_local_dir }),
            None => None,
        }
    }

    /// The configuration directory.
    pub fn config_dir(&self) -> (r: &str)
        ensures
            r@ == self.config_dir_spec(),
    {
        self.config_dir.as_str()
    }

    /// The local data directory.
    pub fn data_local_dir(&self) -> (r: &str)
        ensures
            r@ == self.data_local_dir_spec(),
    {
        self.data_local_dir.as_str()
    }

    /// The `logs` directory inside the local data directory.
    pub fn logs_dir(&self) -> (r: String)
        ensures
            !has_verbatim_prefix(self.data_local_dir_spec()) ==> joined(
                r@,
                self.data_local_dir_spec(),
                LOGS_DIR_NAME@,
            ),
    {
        proof {
            reveal_strlit("logs");
        }
        join_path(self.data_local_dir.as_str(), LOGS_DIR_NAME)
    }
}

} // verus!
