use vstd::prelude::*;

use crate::models::{CrateRelease, Dependency, DepSource, Version};

verus! {

// ---------------------------------------------------------------------------
// Dependency classification against registry data.
//
// For each declared dependency the analyzer receives the registry's release
// list, selects the newest available release and the newest one its version
// requirement admits, and classifies the dependency as current, outdated,
// or indeterminate. This is a pure transform: all registry fetching happens
// outside and its results are passed in.
// ---------------------------------------------------------------------------

/// Whether the requirement text admits version `major.minor.patch`, or
/// `None` when the text is not a well-formed requirement. A function of its
/// arguments alone; only the trusted matcher below relates it to executable
/// values.
pub uninterp spec fn req_admits(req: Seq<char>, major: u64, minor: u64, patch: u64) -> Option<
    bool,
>;

/// Relies on `semver::VersionReq::parse` and `semver::VersionReq::matches`:
/// whether a requirement admits a version depends on the requirement text
/// and the version numbers alone.
#[verifier::external_body]
fn admits(req: &String, v: &Version) -> (r: Option<bool>)
    ensures
        r == req_admits(req@, v.major, v.minor, v.patch),
{
    match semver::VersionReq::parse(req.as_str()) {
        Ok(parsed) => Some(parsed.matches(&semver::Version::new(v.major, v.minor, v.patch))),
        Err(_) => None,
    }
}

pub open spec fn spec_admits(req: Seq<char>, v: Version) -> Option<bool> {
    req_admits(req, v.major, v.minor, v.patch)
}

/// How one dependency stands against the registry.
#[derive(Debug, Clone, Copy, PartialEq, Eq, Structural)]
pub enum Classification {
    /// The requirement already admits the newest available release.
    Current,
    /// A newer release exists that the requirement excludes.
    Outdated,
    /// Not resolvable against the registry: a path dependency, an
    /// unparsable requirement, or no available release at all.
    Indeterminate,
}

/// `v` is the newest release that is still available.
pub open spec fn is_latest(rels: Seq<CrateRelease>, v: Version) -> bool {
    &&& exists|i: int| 0 <= i < rels.len() && !rels[i].yanked && rels[i].version == v
    &&& forall|i: int| 0 <= i < rels.len() && !rels[i].yanked ==> !v.spec_lt(rels[i].version)
}

/// No release is available at all.
pub open spec fn no_available(rels: Seq<CrateRelease>) -> bool {
    forall|i: int| 0 <= i < rels.len() ==> rels[i].yanked
}

/// `v` is the newest available release the requirement admits.
pub open spec fn is_latest_matching(req: Seq<char>, rels: Seq<CrateRelease>, v: Version) -> bool {
    &&& exists|i: int|
        0 <= i < rels.len() && !rels[i].yanked && rels[i].version == v && spec_admits(
            req,
            rels[i].version,
        ) == Some(true)
    &&& forall|i: int|
        0 <= i < rels.len() && !rels[i].yanked && spec_admits(req, rels[i].version) == Some(true)
            ==> !v.spec_lt(rels[i].version)
}

/// No available release is admitted by the requirement.
pub open spec fn none_matching(req: Seq<char>, rels: Seq<CrateRelease>) -> bool {
    forall|i: int|
        0 <= i < rels.len() ==> rels[i].yanked || spec_admits(req, rels[i].version) != Some(true)
}

/// The classification that follows from the newest available release: no
/// release or an unparsable requirement is indeterminate; otherwise the
/// dependency is current exactly when the requirement admits that newest
/// release.
pub open spec fn classify(req: Seq<char>, latest: Option<Version>) -> Classification {
    match latest {
        None => Classification::Indeterminate,
        Some(v) => match spec_admits(req, v) {
            None => Classification::Indeterminate,
            Some(true) => Classification::Current,
            Some(false) => Classification::Outdated,
        },
    }
}

/// How one dependency stands: its version requirement, the newest
/// available release, the newest admitted release, and the classification.
#[derive(Debug)]
pub struct AnalyzedDependency {
    pub name: String,
    pub required: String,
    pub latest: Option<Version>,
    pub latest_that_matches: Option<Version>,
    pub classification: Classification,
}

/// What [`analyze_dependency`] promises of its result.
pub open spec fn analyzed_ok(dep: Dependency, rels: Seq<CrateRelease>, r: AnalyzedDependency)
    -> bool {
    &&& r.name@ == dep.name@
    &&& match dep.source {
        DepSource::Path { .. } => {
            &&& r.classification == Classification::Indeterminate
            &&& r.latest is None
            &&& r.latest_that_matches is None
            &&& r.required@ == Seq::<char>::empty()
        },
        DepSource::Registry { req } => {
            &&& r.required@ == req@
            &&& match r.latest {
                None => no_available(rels),
                Some(v) => is_latest(rels, v),
            }
            &&& match r.latest_that_matches {
                None => none_matching(req@, rels),
                Some(v) => is_latest_matching(req@, rels, v),
            }
            &&& r.classification == classify(req@, r.latest)
        },
    }
}

/// Classify one declared dependency against the registry's release list
/// for its name.
pub fn analyze_dependency(dep: &Dependency, releases: &Vec<CrateRelease>) -> (r:
    AnalyzedDependency)
    ensures
        analyzed_ok(*dep, releases@, r),
{
    match &dep.source {
        DepSource::Path { .. } => AnalyzedDependency {
            name: dep.name.clone(),
            required: String::new(),
            latest: None,
            latest_that_matches: None,
            classification: Classification::Indeterminate,
        },
        DepSource::Registry { req } => {
            let mut latest: Option<Version> = None;
            let mut matching: Option<Version> = None;
            let mut i: usize = 0;
            while i < releases.len()
                invariant
                    i <= releases@.len(),
                    match latest {
                        None => forall|j: int| 0 <= j < i ==> releases@[j].yanked,
                        Some(v) => {
                            &&& exists|j: int|
                                0 <= j < i && !releases@[j].yanked && releases@[j].version == v
                            &&& forall|j: int|
                                0 <= j < i && !releases@[j].yanked ==> !v.spec_lt(
                                    releases@[j].version,
                                )
                        },
                    },
                    match matching {
                        None => forall|j: int|
                            0 <= j < i ==> releases@[j].yanked || spec_admits(
                                req@,
                                releases@[j].version,
                            ) != Some(true),
                        Some(v) => {
                            &&& exists|j: int|
                                0 <= j < i && !releases@[j].yanked && releases@[j].version == v
                                    && spec_admits(req@, releases@[j].version) == Some(true)
                            &&& forall|j: int|
                                0 <= j < i && !releases@[j].yanked && spec_admits(
                                    req@,
                                    releases@[j].version,
                                ) == Some(true) ==> !v.spec_lt(releases@[j].version)
                        },
                    },
                decreases releases@.len() - i,
            {
                let rel = releases[i];
                if !rel.yanked {
                    match latest {
                        None => {
                            latest = Some(rel.version);
                        },
                        Some(v) => {
                            if v.lt(&rel.version) {
                                latest = Some(rel.version);
                            }
                        },
                    }
                    let adm = admits(req, &rel.version);
                    let is_match = match adm {
                        Some(true) => true,
                        _ => false,
                    };
                    if is_match {
                        match matching {
                            None => {
                                matching = Some(rel.version);
                            },
                            Some(v) => {
                                if v.lt(&rel.version) {
                                    matching = Some(rel.version);
                                }
                            },
                        }
                    }
                }
                i = i + 1;
            }
            let classification = match &latest {
                None => Classification::Indeterminate,
                Some(v) => {
                    let adm = admits(req, v);
                    match adm {
                        None => Classification::Indeterminate,
                        Some(true) => Classification::Current,
                        Some(false) => Classification::Outdated,
                    }
                },
            };
            AnalyzedDependency {
                name: dep.name.clone(),
                required: req.clone(),
                latest,
                latest_that_matches: matching,
                classification,
            }
        },
    }
}

/// The verdicts for one package's whole dependency list.
#[derive(Debug)]
pub struct AnalyzedDependencies {
    pub deps: Vec<AnalyzedDependency>,
}

pub open spec fn count_outdated_of(s: Seq<AnalyzedDependency>) -> int
    decreases s.len(),
{
    if s.len() == 0 {
        0
    } else {
        count_outdated_of(s.drop_last()) + if s.last().classification is Outdated {
            1int
        } else {
            0int
        }
    }
}

pub open spec fn any_outdated_of(s: Seq<AnalyzedDependency>) -> bool {
    exists|i: int| 0 <= i < s.len() && s[i].classification is Outdated
}

impl AnalyzedDependencies {
    /// Analyze a whole dependency list: `releases[i]` is the registry's
    /// release list for `deps[i]`.
    pub fn analyze(deps: &Vec<Dependency>, releases: &Vec<Vec<CrateRelease>>) -> (r:
        AnalyzedDependencies)
        requires
            deps@.len() == releases@.len(),
        ensures
            r.deps@.len() == deps@.len(),
            forall|i: int|
                0 <= i < deps@.len() ==> analyzed_ok(deps@[i], releases@[i]@, #[trigger] r.deps@[i]),
    {
        let mut out: Vec<AnalyzedDependency> = Vec::new();
        let mut i: usize = 0;
        while i < deps.len()
            invariant
                deps@.len() == releases@.len(),
                i <= deps@.len(),
                out@.len() == i,
                forall|j: int|
                    0 <= j < i ==> analyzed_ok(deps@[j], releases@[j]@, #[trigger] out@[j]),
            decreases deps@.len() - i,
        {
            let a = analyze_dependency(&deps[i], &releases[i]);
            out.push(a);
            i = i + 1;
        }
        AnalyzedDependencies { deps: out }
    }

    pub fn count_total(&self) -> (r: usize)
        ensures
            r == self.deps@.len(),
    {
        self.deps.len()
    }

    pub fn count_outdated(&self) -> (r: usize)
        ensures
            r == count_outdated_of(self.deps@),
    {
        let mut n: usize = 0;
        let mut i: usize = 0;
        while i < self.deps.len()
            invariant
                i <= self.deps@.len(),
                n == count_outdated_of(self.deps@.take(i as int)),
                n <= i,
            decreases self.deps@.len() - i,
        {
            let outdated = match self.deps[i].classification {
                Classification::Outdated => true,
                _ => false,
            };
            proof {
                assert(self.deps@.take(i as int + 1).drop_last() =~= self.deps@.take(i as int));
                assert(self.deps@.take(i as int + 1).last() == self.deps@[i as int]);
            }
            if outdated {
                n = n + 1;
            }
            i = i + 1;
        }
        proof {
            assert(self.deps@.take(self.deps@.len() as int) =~= self.deps@);
        }
        n
    }

    pub fn any_outdated(&self) -> (r: bool)
        ensures
            r == any_outdated_of(self.deps@),
    {
        let mut i: usize = 0;
        while i < self.deps.len()
            invariant
                i <= self.deps@.len(),
                forall|j: int| 0 <= j < i ==> !(self.deps@[j].classification is Outdated),
            decreases self.deps@.len() - i,
        {
            let outdated = match self.deps[i].classification {
                Classification::Outdated => true,
                _ => false,
            };
            if outdated {
                return true;
            }
            i = i + 1;
        }
        false
    }
}

/// The count of outdated dependencies never exceeds the count of
/// dependencies.
pub proof fn lemma_outdated_le_total(s: Seq<AnalyzedDependency>)
    ensures
        0 <= count_outdated_of(s) <= s.len(),
    decreases s.len(),
{
    if s.len() > 0 {
        lemma_outdated_le_total(s.drop_last());
    }
}

} // verus!
