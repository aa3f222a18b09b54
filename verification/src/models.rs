use vstd::prelude::*;

verus! {

/// A semantic version, read as its three numeric components.
#[derive(Debug, Clone, Copy, PartialEq, Eq, Structural)]
pub struct Version {
    pub major: u64,
    pub minor: u64,
    pub patch: u64,
}

impl Version {
    /// Strict ordering of versions: major, then minor, then patch.
    pub open spec fn spec_lt(self, other: Version) -> bool {
        ||| self.major < other.major
        ||| (self.major == other.major && self.minor < other.minor)
        ||| (self.major == other.major && self.minor == other.minor && self.patch < other.patch)
    }

    pub fn lt(&self, other: &Version) -> (r: bool)
        ensures
            r == self.spec_lt(*other),
    {
        if self.major != other.major {
            self.major < other.major
        } else if self.minor != other.minor {
            self.minor < other.minor
        } else {
            self.patch < other.patch
        }
    }
}

/// One release of a crate in the registry: its version and whether it has
/// been withdrawn from availability.
#[derive(Debug, Clone, Copy, PartialEq, Eq, Structural)]
pub struct CrateRelease {
    pub version: Version,
    pub yanked: bool,
}

/// Where a declared dependency points: at the registry, under a version
/// requirement, or at a sub-package by a relative path inside the same
/// repository.
#[derive(Debug)]
pub enum DepSource {
    Registry { req: String },
    Path { path: String },
}

/// One declared dependency of a manifest.
#[derive(Debug)]
pub struct Dependency {
    pub name: String,
    pub source: DepSource,
}

/// One parsed manifest: the package it declares and its dependencies.
#[derive(Debug)]
pub struct Manifest {
    pub name: String,
    pub deps: Vec<Dependency>,
}

/// The hosting services repositories can live on.
#[derive(Debug, Clone, Copy, PartialEq, Eq, Hash, Structural)]
pub enum RepoSite {
    Github,
    Gitlab,
    Bitbucket,
}

impl RepoSite {
    pub open spec fn spec_base_uri(self) -> Seq<char> {
        match self {
            RepoSite::Github => "https://github.com"@,
            RepoSite::Gitlab => "https://gitlab.com"@,
            RepoSite::Bitbucket => "https://bitbucket.org"@,
        }
    }

    pub fn to_base_uri(&self) -> (r: &'static str)
        ensures
            r@ == self.spec_base_uri(),
    {
        match self {
            RepoSite::Github => "https://github.com",
            RepoSite::Gitlab => "https://gitlab.com",
            RepoSite::Bitbucket => "https://bitbucket.org",
        }
    }
}

/// A repository on a hosting service, identified structurally.
#[derive(Debug, Clone, PartialEq, Eq, Hash)]
pub struct RepoPath {
    pub site: RepoSite,
    pub qual: String,
    pub name: String,
}

/// Structural sameness of repository identifiers.
pub open spec fn same_repo(a: RepoPath, b: RepoPath) -> bool {
    a.site == b.site && a.qual@ == b.qual@ && a.name@ == b.name@
}

impl RepoPath {
    pub fn from_parts(site: RepoSite, qual: String, name: String) -> (r: RepoPath)
        ensures
            r.site == site,
            r.qual@ == qual@,
            r.name@ == name@,
    {
        RepoPath { site, qual, name }
    }

    /// Whether two identifiers name the same repository.
    pub fn matches(&self, other: &RepoPath) -> (r: bool)
        ensures
            r == same_repo(*self, *other),
    {
        let site_eq = match (self.site, other.site) {
            (RepoSite::Github, RepoSite::Github) => true,
            (RepoSite::Gitlab, RepoSite::Gitlab) => true,
            (RepoSite::Bitbucket, RepoSite::Bitbucket) => true,
            _ => false,
        };
        site_eq && self.qual == other.qual && self.name == other.name
    }
}

/// A repository entry of the popular listing.
#[derive(Debug, Clone)]
pub struct Repository {
    pub path: RepoPath,
    pub description: String,
}

impl Repository {
    /// An equal copy.
    pub fn clone_repo(&self) -> (r: Repository)
        ensures
            r == *self,
    {
        Repository {
            path: RepoPath {
                site: self.path.site,
                qual: self.path.qual.clone(),
                name: self.path.name.clone(),
            },
            description: self.description.clone(),
        }
    }
}

} // verus!
