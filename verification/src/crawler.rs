use vstd::prelude::*;
use vstd::string::StringExecFns;

use crate::error::Error;
use crate::models::{Dependency, DepSource, Manifest};

verus! {

// ---------------------------------------------------------------------------
// Recursive manifest discovery.
//
// Starting from a repository's root directory, every manifest names
// dependencies; a dependency declared by relative path points at a
// sub-package whose own manifest must be fetched too. The crawler is the
// sequential core of that walk: it hands out normalized directory paths to
// fetch, consumes parsed manifests, schedules the sub-packages they
// reference — each normalized path at most once per crawl — and merges the
// discovered packages. The surrounding runtime fetches and parses manifests
// concurrently; a single fetch failure fails the whole crawl.
// ---------------------------------------------------------------------------

/// The path that joining `rel` onto `base` and logically normalizing the
/// result (removing `.` and folding `..`) denotes. Only the trusted path
/// arithmetic below relates this name to executable values.
pub uninterp spec fn joined_of(base: Seq<char>, rel: Seq<char>) -> Seq<char>;

/// A path normalized on its own.
pub open spec fn normalized_of(p: Seq<char>) -> Seq<char> {
    joined_of(Seq::<char>::empty(), p)
}

/// Relies on `relative_path::RelativePath::join_normalized`: the joined and
/// logically normalized path is a function of the two path strings alone.
#[verifier::external_body]
fn join_normalized(base: &String, rel: &String) -> (r: String)
    ensures
        r@ == joined_of(base@, rel@),
{
    relative_path::RelativePath::new(base.as_str()).join_normalized(rel.as_str()).into_string()
}

/// The manifest file inside a package directory: `{dir}/Cargo.toml`,
/// normalized.
pub fn manifest_file_path(dir: &String) -> (r: String)
    ensures
        r@ == joined_of(dir@, "Cargo.toml"@),
{
    let file = String::from_str("Cargo.toml");
    join_normalized(dir, &file)
}

pub open spec fn str_views(s: Seq<String>) -> Seq<Seq<char>> {
    s.map(|i: int, x: String| x@)
}

pub open spec fn no_dup(s: Seq<Seq<char>>) -> bool {
    forall|i: int, j: int| 0 <= i < j < s.len() ==> s[i] != s[j]
}

/// Walk one manifest's dependencies in order: each path dependency is
/// joined onto the manifest's directory and normalized; a path not yet
/// visited is recorded as visited and queued for fetching, a visited one is
/// skipped. Registry dependencies schedule nothing.
pub open spec fn schedule(
    visited: Seq<Seq<char>>,
    queue: Seq<Seq<char>>,
    base: Seq<char>,
    deps: Seq<Dependency>,
) -> (Seq<Seq<char>>, Seq<Seq<char>>)
    decreases deps.len(),
{
    if deps.len() == 0 {
        (visited, queue)
    } else {
        let (v1, q1) = match deps[0].source {
            DepSource::Registry { .. } => (visited, queue),
            DepSource::Path { path } => {
                let c = joined_of(base, path@);
                if visited.contains(c) {
                    (visited, queue)
                } else {
                    (visited.push(c), queue.push(c))
                }
            },
        };
        schedule(v1, q1, base, deps.skip(1))
    }
}

/// The crawl's state machine: normalized paths ever scheduled, the queue of
/// paths not yet handed out, the count of fetches in flight, the packages
/// merged so far, and the first failure if any. The ghost `served` sequence
/// records every path ever handed out to a fetch.
pub struct ManifestCrawler {
    visited: Vec<String>,
    queue: Vec<String>,
    in_flight: usize,
    packages: Vec<(String, Vec<Dependency>)>,
    failure: Option<Error>,
    served: Ghost<Seq<Seq<char>>>,
}

impl ManifestCrawler {
    pub closed spec fn visited_view(self) -> Seq<Seq<char>> {
        str_views(self.visited@)
    }

    pub closed spec fn queue_view(self) -> Seq<Seq<char>> {
        str_views(self.queue@)
    }

    pub closed spec fn served_view(self) -> Seq<Seq<char>> {
        self.served@
    }

    pub closed spec fn packages_view(self) -> Seq<(Seq<char>, Seq<Dependency>)> {
        self.packages@.map(|i: int, p: (String, Vec<Dependency>)| (p.0@, p.1@))
    }

    pub closed spec fn in_flight_count(self) -> int {
        self.in_flight as int
    }

    pub closed spec fn first_failure(self) -> Option<Error> {
        self.failure
    }

    /// Paths are handed out at most once, the queue holds no duplicates and
    /// only visited, not yet served paths, and the in-flight count stays
    /// within what was ever scheduled.
    pub closed spec fn wf(self) -> bool {
        &&& no_dup(self.served_view())
        &&& no_dup(self.queue_view())
        &&& (forall|x: Seq<char>|
            #[trigger] self.queue_view().contains(x) ==> self.visited_view().contains(x))
        &&& (forall|x: Seq<char>|
            #[trigger] self.served_view().contains(x) ==> self.visited_view().contains(x))
        &&& (forall|x: Seq<char>|
            #[trigger] self.queue_view().contains(x) ==> !self.served_view().contains(x))
        &&& self.in_flight_count() + self.queue_view().len() <= self.visited_view().len()
    }

    /// A crawl poised to fetch the manifest of the normalized root
    /// directory, with nothing discovered yet.
    pub fn new(root: &String) -> (r: ManifestCrawler)
        ensures
            r.wf(),
            r.visited_view() =~= seq![normalized_of(root@)],
            r.queue_view() =~= seq![normalized_of(root@)],
            r.served_view() == Seq::<Seq<char>>::empty(),
            r.packages_view() =~= Seq::<(Seq<char>, Seq<Dependency>)>::empty(),
            r.in_flight_count() == 0,
            r.first_failure() is None,
    {
        let empty = String::new();
        let start = join_normalized(&empty, root);
        let mut visited: Vec<String> = Vec::new();
        let mut queue: Vec<String> = Vec::new();
        visited.push(start.clone());
        queue.push(start);
        ManifestCrawler {
            visited,
            queue,
            in_flight: 0,
            packages: Vec::new(),
            failure: None,
            served: Ghost(Seq::empty()),
        }
    }

    /// Hand out the next scheduled path, oldest first. A path is never
    /// handed out twice within one crawl.
    pub fn next_fetch(&mut self) -> (r: Option<String>)
        requires
            old(self).wf(),
        ensures
            final(self).wf(),
            match r {
                Some(p) => {
                    &&& old(self).queue_view().len() > 0
                    &&& p@ == old(self).queue_view()[0]
                    &&& !old(self).served_view().contains(p@)
                    &&& final(self).queue_view() == old(self).queue_view().skip(1)
                    &&& final(self).served_view() == old(self).served_view().push(p@)
                    &&& final(self).in_flight_count() == old(self).in_flight_count() + 1
                },
                None => {
                    &&& old(self).queue_view().len() == 0
                    &&& *final(self) == *old(self)
                },
            },
            final(self).visited_view() == old(self).visited_view(),
            final(self).packages_view() == old(self).packages_view(),
            final(self).first_failure() == old(self).first_failure(),
    {
        if self.queue.len() == 0 {
            return None;
        }
        let ghost q0 = self.queue@;
        let p = self.queue.remove(0);
        let vl = self.visited.len();
        assert(self.in_flight < vl);
        proof {
            assert(str_views(q0.remove(0)) =~= str_views(q0).skip(1));
            assert(str_views(q0).contains(p@)) by {
                assert(str_views(q0)[0] == p@);
            }
        }
        self.in_flight = self.in_flight + 1;
        let ghost s0 = self.served@;
        proof {
            self.served@ = self.served@.push(p@);
        }
        proof {
            assert(self.queue_view() =~= str_views(q0).skip(1));
            assert(old(self).queue_view() == str_views(q0));
            assert(old(self).served_view() == s0);
            assert(self.served_view() == s0.push(p@));
            assert(old(self).queue_view().contains(p@)) by {
                assert(old(self).queue_view()[0] == p@);
            }
            assert(old(self).visited_view().contains(p@));
            assert(self.visited_view() == old(self).visited_view());
            assert(no_dup(self.served_view())) by {
                assert forall|i: int, j: int|
                    0 <= i < j < self.served_view().len() implies self.served_view()[i] != self
                    .served_view()[j] by {
                    if j == self.served_view().len() - 1 {
                        assert(self.served_view()[i] == s0[i]);
                        assert(old(self).served_view().contains(s0[i])) by {
                            assert(old(self).served_view()[i] == s0[i]);
                        }
                    } else {
                        assert(self.served_view()[i] == s0[i]);
                        assert(self.served_view()[j] == s0[j]);
                    }
                }
            }
            assert(no_dup(self.queue_view())) by {
                assert forall|i: int, j: int|
                    0 <= i < j < self.queue_view().len() implies self.queue_view()[i] != self
                    .queue_view()[j] by {
                    assert(self.queue_view()[i] == old(self).queue_view()[i + 1]);
                    assert(self.queue_view()[j] == old(self).queue_view()[j + 1]);
                }
            }
            assert forall|x: Seq<char>| self.queue_view().contains(x) implies self.visited_view()
                .contains(x) by {
                let k = choose|k: int| 0 <= k < self.queue_view().len() && self.queue_view()[k]
                    == x;
                assert(old(self).queue_view().contains(x)) by {
                    assert(old(self).queue_view()[k + 1] == x);
                }
            }
            assert forall|x: Seq<char>| self.served_view().contains(x) implies self.visited_view()
                .contains(x) by {
                let k = choose|k: int| 0 <= k < self.served_view().len() && self.served_view()[k]
                    == x;
                if k < s0.len() {
                    assert(old(self).served_view().contains(x)) by {
                        assert(old(self).served_view()[k] == x);
                    }
                } else {
                    assert(x == p@);
                }
            }
            assert forall|x: Seq<char>| self.queue_view().contains(x) implies !self.served_view()
                .contains(x) by {
                let k = choose|k: int| 0 <= k < self.queue_view().len() && self.queue_view()[k]
                    == x;
                assert(old(self).queue_view().contains(x)) by {
                    assert(old(self).queue_view()[k + 1] == x);
                }
                assert(x != p@) by {
                    assert(old(self).queue_view()[k + 1] == x);
                    assert(old(self).queue_view()[0] == p@);
                }
                if self.served_view().contains(x) {
                    let k2 = choose|k2: int|
                        0 <= k2 < self.served_view().len() && self.served_view()[k2] == x;
                    assert(k2 < s0.len());
                    assert(old(self).served_view().contains(x)) by {
                        assert(old(self).served_view()[k2] == x);
                    }
                }
            }
        }
        Some(p)
    }

    /// Whether fetched or queued work is still outstanding.
    pub fn pending(&self) -> (r: bool)
        ensures
            r == (self.queue_view().len() > 0 || self.in_flight_count() > 0),
    {
        self.queue.len() > 0 || self.in_flight > 0
    }

    /// Merge the parsed manifest fetched for the directory `path`: record
    /// its package, and schedule every path dependency not yet visited —
    /// so a sub-package referenced from two dependents is still fetched only
    /// once.
    pub fn on_manifest(&mut self, path: &String, manifest: Manifest)
        requires
            old(self).wf(),
            old(self).in_flight_count() > 0,
        ensures
            final(self).wf(),
            ({
                let (v2, q2) = schedule(
                    old(self).visited_view(),
                    old(self).queue_view(),
                    path@,
                    manifest.deps@,
                );
                &&& final(self).visited_view() == v2
                &&& final(self).queue_view() == q2
            }),
            final(self).packages_view() == old(self).packages_view().push(
                (manifest.name@, manifest.deps@),
            ),
            final(self).served_view() == old(self).served_view(),
            final(self).first_failure() == old(self).first_failure(),
            final(self).in_flight_count() == old(self).in_flight_count() - 1,
    {
        let ghost v0 = self.visited_view();
        let ghost q0 = self.queue_view();
        proof {
            assert(manifest.deps@.skip(0) =~= manifest.deps@);
        }
        let mut i: usize = 0;
        while i < manifest.deps.len()
            invariant
                self.wf(),
                i <= manifest.deps@.len(),
                schedule(v0, q0, path@, manifest.deps@) == schedule(
                    self.visited_view(),
                    self.queue_view(),
                    path@,
                    manifest.deps@.skip(i as int),
                ),
                self.in_flight_count() == old(self).in_flight_count(),
                self.served_view() == old(self).served_view(),
                self.packages_view() == old(self).packages_view(),
                self.first_failure() == old(self).first_failure(),
                self.in_flight_count() > 0,
            decreases manifest.deps@.len() - i,
        {
            let ghost dtail = manifest.deps@.skip(i as int);
            proof {
                assert(dtail[0] == manifest.deps@[i as int]);
                assert(dtail.skip(1) =~= manifest.deps@.skip(i as int + 1));
            }
            match &manifest.deps[i].source {
                DepSource::Registry { .. } => {},
                DepSource::Path { path: rel } => {
                    let child = join_normalized(path, rel);
                    let seen = contains_string(&self.visited, &child);
                    if !seen {
                        let ghost vpre = self.visited@;
                        let ghost qpre = self.queue@;
                        self.visited.push(child.clone());
                        self.queue.push(child);
                        proof {
                            assert(str_views(self.visited@) =~= str_views(vpre).push(
                                joined_of(path@, rel@),
                            ));
                            assert(str_views(self.queue@) =~= str_views(qpre).push(
                                joined_of(path@, rel@),
                            ));
                            let c = joined_of(path@, rel@);
                            let vv = str_views(vpre);
                            let qv = str_views(qpre);
                            lemma_push_keeps_wf(vv, qv, self.served@, c);
                        }
                    }
                },
            }
            i = i + 1;
        }
        proof {
            assert(manifest.deps@.skip(i as int) =~= Seq::<Dependency>::empty());
        }
        self.in_flight = self.in_flight - 1;
        let ghost ppre = self.packages@;
        self.packages.push((manifest.name.clone(), manifest.deps));
        proof {
            assert(self.packages_view() =~= old(self).packages_view().push(
                (manifest.name@, manifest.deps@),
            ));
        }
    }

    /// Record a failed fetch: the whole crawl fails with the first failure.
    pub fn on_fetch_failed(&mut self, err: Error)
        requires
            old(self).wf(),
            old(self).in_flight_count() > 0,
        ensures
            final(self).wf(),
            final(self).first_failure() is Some,
            old(self).first_failure() is Some ==> final(self).first_failure() == old(
                self,
            ).first_failure(),
            old(self).first_failure() is None ==> final(self).first_failure() == Some(err),
            final(self).in_flight_count() == old(self).in_flight_count() - 1,
            final(self).visited_view() == old(self).visited_view(),
            final(self).queue_view() == old(self).queue_view(),
            final(self).served_view() == old(self).served_view(),
            final(self).packages_view() == old(self).packages_view(),
    {
        self.in_flight = self.in_flight - 1;
        let had = match &self.failure {
            Some(_) => true,
            None => false,
        };
        if !had {
            self.failure = Some(err);
        }
    }

    /// The crawl's outcome once no work is outstanding: the merged package
    /// map, or the first failure — a crawl that failed anywhere never
    /// yields a partial package map.
    pub fn into_result(self) -> (r: Result<Vec<(String, Vec<Dependency>)>, Error>)
        requires
            self.first_failure() is Some || (self.queue_view().len() == 0
                && self.in_flight_count() == 0),
        ensures
            match self.first_failure() {
                Some(e) => r == Result::<Vec<(String, Vec<Dependency>)>, Error>::Err(e),
                None => r matches Ok(pkgs) && pkgs@.map(
                    |i: int, p: (String, Vec<Dependency>)| (p.0@, p.1@),
                ) == self.packages_view(),
            },
    {
        match self.failure {
            Some(e) => Err(e),
            None => Ok(self.packages),
        }
    }
}

/// Once a crawl state is consistent, the paths it has handed out are
/// pairwise distinct: no manifest is ever fetched twice in one crawl, even
/// when two dependents reference the same sub-package.
pub proof fn lemma_no_refetch(c: ManifestCrawler)
    requires
        c.wf(),
    ensures
        forall|i: int, j: int|
            0 <= i < j < c.served_view().len() ==> c.served_view()[i] != c.served_view()[j],
{
}

/// Scheduling only ever queues paths that were not already visited: a path
/// visited once is never queued again, whoever references it.
pub proof fn lemma_schedule_new_only(
    v: Seq<Seq<char>>,
    q: Seq<Seq<char>>,
    base: Seq<char>,
    deps: Seq<Dependency>,
)
    ensures
        ({
            let (v2, q2) = schedule(v, q, base, deps);
            forall|x: Seq<char>| q2.contains(x) ==> q.contains(x) || !v.contains(x)
        }),
    decreases deps.len(),
{
    if deps.len() == 0 {
    } else {
        let (v1, q1) = match deps[0].source {
            DepSource::Registry { .. } => (v, q),
            DepSource::Path { path } => {
                let c = joined_of(base, path@);
                if v.contains(c) {
                    (v, q)
                } else {
                    (v.push(c), q.push(c))
                }
            },
        };
        lemma_schedule_new_only(v1, q1, base, deps.skip(1));
        let (v2, q2) = schedule(v, q, base, deps);
        assert forall|x: Seq<char>| q2.contains(x) implies q.contains(x) || !v.contains(x) by {
            if q1.contains(x) {
                if q1 != q {
                    let c = joined_of(base, deps[0].source->Path_path@);
                    let k = choose|k: int| 0 <= k < q1.len() && q1[k] == x;
                    if k < q.len() {
                        assert(q[k] == x);
                    } else {
                        assert(x == c);
                    }
                }
            } else {
                assert(!v1.contains(x));
                if v.contains(x) {
                    let k = choose|k: int| 0 <= k < v.len() && v[k] == x;
                    assert(v1[k] == x);
                }
            }
        }
    }
}

proof fn lemma_push_keeps_wf(
    vv: Seq<Seq<char>>,
    qv: Seq<Seq<char>>,
    served: Seq<Seq<char>>,
    c: Seq<char>,
)
    requires
        no_dup(qv),
        !vv.contains(c),
        forall|x: Seq<char>| #[trigger] qv.contains(x) ==> vv.contains(x),
        forall|x: Seq<char>| #[trigger] served.contains(x) ==> vv.contains(x),
        forall|x: Seq<char>| #[trigger] qv.contains(x) ==> !served.contains(x),
    ensures
        no_dup(qv.push(c)),
        forall|x: Seq<char>| #[trigger] qv.push(c).contains(x) ==> vv.push(c).contains(x),
        forall|x: Seq<char>| #[trigger] served.contains(x) ==> vv.push(c).contains(x),
        forall|x: Seq<char>| #[trigger] qv.push(c).contains(x) ==> !served.contains(x),
{
    assert forall|i: int, j: int| 0 <= i < j < qv.push(c).len() implies qv.push(c)[i] != qv.push(
        c,
    )[j] by {
        if j == qv.len() {
            assert(qv[i] == qv.push(c)[i]);
            assert(qv.contains(qv[i])) by {
                assert(qv[i] == qv[i]);
            }
        }
    }
    assert forall|x: Seq<char>| qv.push(c).contains(x) implies vv.push(c).contains(x) by {
        let k = choose|k: int| 0 <= k < qv.push(c).len() && qv.push(c)[k] == x;
        if k < qv.len() {
            assert(qv.contains(x)) by {
                assert(qv[k] == x);
            }
            assert(vv.contains(x));
            let k2 = choose|k2: int| 0 <= k2 < vv.len() && vv[k2] == x;
            assert(vv.push(c)[k2] == x);
        } else {
            assert(vv.push(c)[vv.len() as int] == c);
        }
    }
    assert forall|x: Seq<char>| served.contains(x) implies vv.push(c).contains(x) by {
        assert(vv.contains(x));
        let k2 = choose|k2: int| 0 <= k2 < vv.len() && vv[k2] == x;
        assert(vv.push(c)[k2] == x);
    }
    assert forall|x: Seq<char>| qv.push(c).contains(x) implies !served.contains(x) by {
        let k = choose|k: int| 0 <= k < qv.push(c).len() && qv.push(c)[k] == x;
        if k < qv.len() {
            assert(qv.contains(x)) by {
                assert(qv[k] == x);
            }
        } else {
            assert(x == c);
            if served.contains(x) {
                assert(vv.contains(x));
            }
        }
    }
}

/// Whether some element of `v` reads as the same text as `x`.
fn contains_string(v: &Vec<String>, x: &String) -> (r: bool)
    ensures
        r == str_views(v@).contains(x@),
{
    let mut i: usize = 0;
    while i < v.len()
        invariant
            i <= v@.len(),
            forall|j: int| 0 <= j < i ==> v@[j]@ != x@,
        decreases v@.len() - i,
    {
        let hit = v[i].eq(x);
        if hit {
            assert(str_views(v@)[i as int] == x@);
            return true;
        }
        i = i + 1;
    }
    proof {
        if str_views(v@).contains(x@) {
            let k = choose|k: int| 0 <= k < v@.len() && str_views(v@)[k] == x@;
            assert(v@[k]@ == x@);
        }
    }
    false
}

} // verus!
