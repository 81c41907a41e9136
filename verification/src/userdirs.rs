//! The user directories of this machine, as `dirs` reports them.  Each
//! kind comes in a type of its own whose only maker is the call that reads
//! it, so a directory can only be used where its kind belongs: the roaming
//! configuration directory for `%APPDATA%`, the local data directory for
//! `%LOCALAPPDATA%`, and so on.

use crate::error::AppError;
use crate::paths::{data_dir_from, data_dir_spec, path_outcome, subst, subst_all, KnownDirs, LocalPath};
use vstd::prelude::*;

verus! {

/// The home directory, as text.
pub struct HomeDir {
    text: Option<String>,
}

/// The roaming configuration directory (`%APPDATA%` on Windows,
/// `~/.config` on Linux), as text.
pub struct ConfigDir {
    text: Option<String>,
}

/// The local data directory (`%LOCALAPPDATA%` on Windows,
/// `~/.local/share` on Linux), as text.
pub struct DataLocalDir {
    text: Option<String>,
}

/// The roaming data directory, as text.
pub struct DataDir {
    text: Option<String>,
}

/// The documents directory, as text.
pub struct DocumentsDir {
    text: Option<String>,
}

impl HomeDir {
    pub closed spec fn dir(self) -> Option<String> {
        self.text
    }
}

impl ConfigDir {
    pub closed spec fn dir(self) -> Option<String> {
        self.text
    }
}

impl DataLocalDir {
    pub closed spec fn dir(self) -> Option<String> {
        self.text
    }
}

impl DataDir {
    pub closed spec fn dir(self) -> Option<String> {
        self.text
    }
}

impl DocumentsDir {
    pub closed spec fn dir(self) -> Option<String> {
        self.text
    }
}

/// `dirs::home_dir()` as text; depends on the machine, nothing is claimed.
#[verifier::external_body]
pub(crate) fn home_dir() -> HomeDir {
    HomeDir { text: dirs::home_dir().map(|p| p.to_string_lossy().to_string()) }
}

/// `dirs::config_dir()` as text; depends on the machine, nothing is claimed.
#[verifier::external_body]
pub(crate) fn config_dir() -> ConfigDir {
    ConfigDir { text: dirs::config_dir().map(|p| p.to_string_lossy().to_string()) }
}

/// `dirs::data_local_dir()` as text; depends on the machine, nothing is
/// claimed.
#[verifier::external_body]
pub(crate) fn data_local_dir() -> DataLocalDir {
    DataLocalDir { text: dirs::data_local_dir().map(|p| p.to_string_lossy().to_string()) }
}

/// `dirs::data_dir()` as text; depends on the machine, nothing is claimed.
#[verifier::external_body]
pub(crate) fn data_dir_base() -> DataDir {
    DataDir { text: dirs::data_dir().map(|p| p.to_string_lossy().to_string()) }
}

/// `dirs::document_dir()` as text; depends on the machine, nothing is
/// claimed.
#[verifier::external_body]
pub(crate) fn document_dir() -> DocumentsDir {
    DocumentsDir { text: dirs::document_dir().map(|p| p.to_string_lossy().to_string()) }
}

/// The directories expansion substitutes, each taken from its own kind.
pub open spec fn dirs_from(h: HomeDir, c: ConfigDir, l: DataLocalDir, d: DocumentsDir) -> KnownDirs {
    KnownDirs { home: h.dir(), config: c.dir(), data_local: l.dir(), documents: d.dir() }
}

/// The directories expansion substitutes.
pub fn dirs_of(h: HomeDir, c: ConfigDir, l: DataLocalDir, d: DocumentsDir) -> (r: KnownDirs)
    ensures
        r == dirs_from(h, c, l, d),
{
    KnownDirs { home: h.text, config: c.text, data_local: l.text, documents: d.text }
}

/// The data directory of the application: under the local data directory,
/// or under the roaming one when there is no local one.
pub fn data_dir_in(l: DataLocalDir, d: DataDir) -> (r: Result<LocalPath, AppError>)
    ensures
        path_outcome(r, data_dir_spec(l.dir(), d.dir())),
{
    data_dir_from(l.text, d.text)
}

/// Each directory takes the place of its own kind, and the expansion
/// tokens read them so: `%USERPROFILE%` and `%HOME%` the home directory,
/// `%APPDATA%` the roaming configuration directory, `%LOCALAPPDATA%` the
/// local data directory, `%DOCUMENTS%` the documents directory.
pub proof fn law_each_directory_in_its_place(
    h: HomeDir,
    c: ConfigDir,
    l: DataLocalDir,
    d: DocumentsDir,
    s: Seq<char>,
)
    ensures
        dirs_from(h, c, l, d).home == h.dir(),
        dirs_from(h, c, l, d).config == c.dir(),
        dirs_from(h, c, l, d).data_local == l.dir(),
        dirs_from(h, c, l, d).documents == d.dir(),
        subst_all(s, dirs_from(h, c, l, d)) == subst(
            subst(
                subst(
                    subst(subst(s, "%USERPROFILE%"@, h.dir()), "%APPDATA%"@, c.dir()),
                    "%LOCALAPPDATA%"@,
                    l.dir(),
                ),
                "%HOME%"@,
                h.dir(),
            ),
            "%DOCUMENTS%"@,
            d.dir(),
        ),
{
}

} // verus!
