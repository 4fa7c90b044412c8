//! Shared data model: remote catalog response shapes, the configuration
//! profile, the lock list, and the library's error type.

use vstd::prelude::*;

verus! {

/// Why a library operation could not produce a result. Absence conditions
/// (nothing to do) and per-item rejections are distinguished from one another
/// so that callers can print an informative message instead of an error trace.
#[derive(Clone, Copy, Debug, PartialEq, Eq, Structural)]
pub enum MfError {
    /// A version's file list holds no file marked primary.
    NoPrimaryFile,
    /// The mod directory is absent or holds no eligible files.
    NoModsYet,
    /// The lock store is absent or empty.
    NoLocks,
    /// No configuration has been written yet.
    NoConfig,
    /// A configuration exists but no profile in it is active.
    NoActiveProfile,
    /// A search returned no hits.
    NoHits,
    /// A project exists but offers no compatible versions.
    NoVersions,
    /// The requested artifact is locked against changes.
    ModLocked,
    /// The selected version is already installed.
    AlreadyInstalled,
    /// A selection index lies outside the offered range.
    OutOfRange,
    /// The user dismissed a selection menu.
    Cancelled,
}

impl MfError {
    /// A short, user-facing description of the condition.
    pub fn message(&self) -> (r: &'static str)
        ensures
            r@ == self.spec_message(),
    {
        match self {
            MfError::NoPrimaryFile => "Couldn't get the primary file",
            MfError::NoModsYet => "There's no mods yet",
            MfError::NoLocks => "The profile doesn't have any locks yet",
            MfError::NoConfig => "There's no config yet, type minefetch profile create",
            MfError::NoActiveProfile => "No active profile found",
            MfError::NoHits => "No hits",
            MfError::NoVersions => "No versions available",
            MfError::ModLocked => "This mod is locked",
            MfError::AlreadyInstalled => "This mod is already installed",
            MfError::OutOfRange => "The number is out of range",
            MfError::Cancelled => "Selection cancelled",
        }
    }

    pub open spec fn spec_message(&self) -> Seq<char> {
        match self {
            MfError::NoPrimaryFile => "Couldn't get the primary file"@,
            MfError::NoModsYet => "There's no mods yet"@,
            MfError::NoLocks => "The profile doesn't have any locks yet"@,
            MfError::NoConfig => "There's no config yet, type minefetch profile create"@,
            MfError::NoActiveProfile => "No active profile found"@,
            MfError::NoHits => "No hits"@,
            MfError::NoVersions => "No versions available"@,
            MfError::ModLocked => "This mod is locked"@,
            MfError::AlreadyInstalled => "This mod is already installed"@,
            MfError::OutOfRange => "The number is out of range"@,
            MfError::Cancelled => "Selection cancelled"@,
        }
    }
}

/// The content hashes of one remote file (only SHA-1 is used).
#[derive(Clone, Debug, PartialEq, Eq)]
pub struct Hashes {
    pub sha1: String,
}

/// One downloadable file of a remote version.
#[derive(Clone, Debug, PartialEq, Eq)]
pub struct File {
    pub hashes: Hashes,
    pub url: String,
    pub filename: String,
    pub primary: bool,
}

/// One version of a remote project, as the catalog reports it.
#[derive(Clone, Debug, PartialEq, Eq)]
pub struct Version {
    pub name: String,
    pub files: Vec<File>,
    pub dependencies: Option<Vec<Dependency>>,
    pub project_id: String,
    pub id: String,
}

/// The persisted configuration: a list of profiles, at most one active.
#[derive(Clone, Debug, PartialEq, Eq)]
pub struct Config {
    pub profile: Vec<Profile>,
}

impl Default for Config {
    /// A fresh configuration holds no profiles.
    fn default() -> (c: Config)
        ensures
            c.profile@.len() == 0,
    {
        Config { profile: Vec::new() }
    }
}

/// One configuration profile: a mod directory together with the loader and
/// game version used to filter remote queries.
#[derive(Clone, Debug, PartialEq, Eq)]
pub struct Profile {
    pub active: bool,
    pub name: String,
    pub modsfolder: String,
    pub gameversion: String,
    pub loader: String,
    pub hash: String,
}

/// The shape of a search response.
#[derive(Clone, Debug, PartialEq, Eq)]
pub struct Search {
    pub hits: Vec<Object>,
}

/// One search hit: a project id with its display title.
#[derive(Clone, Debug, PartialEq, Eq)]
pub struct Object {
    pub project_id: String,
    pub title: String,
}

/// Project metadata: only the title is consumed.
#[derive(Clone, Debug, PartialEq, Eq)]
pub struct Project {
    pub title: String,
}

/// The body of a batched "resolve versions by hash" query.
#[derive(Clone, Debug, PartialEq, Eq)]
pub struct Hash {
    pub hashes: Vec<String>,
    pub algorithm: String,
    pub loaders: Option<Vec<String>>,
    pub game_versions: Option<Vec<String>>,
}

/// A dependency of a version: the project it points at and whether it is
/// required or optional.
#[derive(Clone, Debug, PartialEq, Eq)]
pub struct Dependency {
    pub project_id: String,
    pub dependency_type: String,
}

/// The persisted lock list: hashes exempt from upgrades.
#[derive(Clone, Debug, PartialEq, Eq)]
pub struct Locks {
    pub lock: Vec<String>,
}

} // verus!
