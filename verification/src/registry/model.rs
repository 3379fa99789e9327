//! The shape of grit's registry: what the config file holds.
use vstd::prelude::*;

use crate::text::views;

verus! {

/// The config format version written, and the newest one that can be read.
pub const FORMAT_VERSION: u32 = 1;

/// Which version control system backs a repo.
#[derive(Debug, Clone, Copy, PartialEq, Eq, Structural, Hash)]
pub enum VcsKind {
    Git,
    Dolt,
}

impl Default for VcsKind {
    /// A repo of unspecified kind is a git repo.
    fn default() -> (res: VcsKind)
        ensures
            res == VcsKind::Git,
    {
        VcsKind::Git
    }
}

impl VcsKind {
    /// The kind's name, which is also the name of its program.
    pub open spec fn spec_as_str(self) -> Seq<char> {
        match self {
            VcsKind::Git => "git"@,
            VcsKind::Dolt => "dolt"@,
        }
    }

    /// The name of the command-line program this backend drives.
    pub fn program(self) -> (res: &'static str)
        ensures
            res@ == self.spec_as_str(),
    {
        match self {
            VcsKind::Git => "git",
            VcsKind::Dolt => "dolt",
        }
    }

    /// The kind's name, as the config file and the listings spell it.
    pub fn as_str(self) -> (res: &'static str)
        ensures
            res@ == self.spec_as_str(),
    {
        match self {
            VcsKind::Git => "git",
            VcsKind::Dolt => "dolt",
        }
    }
}

/// The format version a config file without one is read as.
pub fn default_version() -> (res: u32)
    ensures
        res == FORMAT_VERSION,
{
    FORMAT_VERSION
}

/// One registered repository.
#[derive(Debug, Clone, PartialEq, Eq)]
pub struct RepoEntry {
    /// Absolute, canonical path to the working tree.
    pub path: String,
    pub kind: VcsKind,
    /// Free-form group labels.
    pub tags: Vec<String>,
    /// RFC 3339, UTC. Informational only: never compared.
    pub added_at: Option<String>,
}

/// A registry entry as text.
pub struct RepoEntryV {
    pub path: Seq<char>,
    pub kind: VcsKind,
    pub tags: Seq<Seq<char>>,
    pub added_at: Option<Seq<char>>,
}

impl View for RepoEntry {
    type V = RepoEntryV;

    open spec fn view(&self) -> RepoEntryV {
        RepoEntryV {
            path: self.path@,
            kind: self.kind,
            tags: views(self.tags@),
            added_at: match self.added_at {
                Some(a) => Some(a@),
                None => None,
            },
        }
    }
}

/// A copy of a list of strings.
pub fn copy_strings(v: &Vec<String>) -> (res: Vec<String>)
    ensures
        views(res@) == views(v@),
{
    let mut res: Vec<String> = Vec::new();
    let mut i: usize = 0;
    while i < v.len()
        invariant
            i <= v@.len(),
            views(res@) == views(v@).take(i as int),
        decreases v@.len() - i,
    {
        let ghost before = res@;
        res.push(v[i].clone());
        assert(views(res@) =~= views(before).push(v@[i as int]@));
        assert(views(v@).take(i + 1) =~= views(v@).take(i as int).push(v@[i as int]@));
        i += 1;
    }
    assert(views(v@).take(v@.len() as int) =~= views(v@));
    res
}

impl RepoEntry {
    /// A copy of this entry.
    pub fn copy(&self) -> (res: RepoEntry)
        ensures
            res@ == self@,
    {
        RepoEntry {
            path: self.path.clone(),
            kind: self.kind,
            tags: copy_strings(&self.tags),
            added_at: match &self.added_at {
                Some(a) => Some(a.clone()),
                None => None,
            },
        }
    }
}

/// A registry entry paired with the alias it is filed under.
#[derive(Debug, Clone, PartialEq, Eq)]
pub struct Repo {
    pub alias: String,
    pub entry: RepoEntry,
}

/// A repo as text.
pub struct RepoV {
    pub alias: Seq<char>,
    pub entry: RepoEntryV,
}

impl View for Repo {
    type V = RepoV;

    open spec fn view(&self) -> RepoV {
        RepoV { alias: self.alias@, entry: self.entry@ }
    }
}

/// The views of a sequence of repos.
pub open spec fn repo_views(v: Seq<Repo>) -> Seq<RepoV> {
    v.map_values(|r: Repo| r@)
}

impl Repo {
    /// A copy of this repo.
    pub fn copy(&self) -> (res: Repo)
        ensures
            res@ == self@,
    {
        Repo { alias: self.alias.clone(), entry: self.entry.copy() }
    }

    /// Where the working tree is.
    pub fn path(&self) -> (res: &str)
        ensures
            res@ == self.entry.path@,
    {
        self.entry.path.as_str()
    }

    /// Which backend drives it.
    pub fn kind(&self) -> (res: VcsKind)
        ensures
            res == self.entry.kind,
    {
        self.entry.kind
    }
}

/// The whole registry, as the config file stores it: a format version and
/// the entries, each under its alias.
#[derive(Debug, Clone, PartialEq, Eq)]
pub struct RegistryFile {
    pub version: u32,
    pub repos: Vec<Repo>,
}

impl Default for RegistryFile {
    /// An empty registry in the current format.
    fn default() -> (res: RegistryFile)
        ensures
            res.version == FORMAT_VERSION,
            res.repos@.len() == 0,
    {
        RegistryFile { version: FORMAT_VERSION, repos: Vec::new() }
    }
}

} // verus!
