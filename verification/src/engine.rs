use vstd::prelude::*;
use vstd::string::StringExecFns;

use crate::analyzer::{any_outdated_of, count_outdated_of, AnalyzedDependencies};
use crate::cache::MemoizingCache;
use crate::error::Error;
use crate::models::{CrateRelease, RepoPath, RepoSite, Repository};
use crate::{ObjectId, Ref};

verus! {

// ---------------------------------------------------------------------------
// Composition root: one memoizing cache per external interactor, the
// popular-repository blacklist, and the pure pieces of the two top-level
// operations — URL construction, HEAD resolution over a decoded ref list,
// blacklist filtering and outcome reductions. The surrounding runtime owns
// the HTTP client and drives the asynchronous flows against these caches.
// ---------------------------------------------------------------------------

/// Whether the text parses as a URI. A function of the text alone; only the
/// trusted parser below relates it to executable values.
pub uninterp spec fn uri_ok(s: Seq<char>) -> bool;

#[verifier::external_type_specification]
#[verifier::external_body]
pub struct ExUri(hyper::Uri);

/// Relies on `hyper::Uri`'s `FromStr` parser: whether a string is a
/// well-formed URI depends on the string alone.
#[verifier::external_body]
fn parse_uri(s: &String) -> (r: Option<hyper::Uri>)
    ensures
        (r is Some) == uri_ok(s@),
{
    s.as_str().parse::<hyper::Uri>().ok()
}

/// A repository is listed when the blacklist holds the same identifier.
pub open spec fn listed(bl: Seq<RepoPath>, p: RepoPath) -> bool {
    exists|i: int| 0 <= i < bl.len() && crate::models::same_repo(bl[i], p)
}

/// The repositories that are not blacklisted, in their given order.
pub open spec fn keep_unlisted(bl: Seq<RepoPath>, repos: Seq<Repository>) -> Seq<Repository>
    decreases repos.len(),
{
    if repos.len() == 0 {
        Seq::empty()
    } else {
        let rest = keep_unlisted(bl, repos.skip(1));
        if listed(bl, repos[0].path) {
            rest
        } else {
            seq![repos[0]] + rest
        }
    }
}

/// The engine: one cache per external interactor, and the blacklist of
/// repositories excluded from the popular listing. Times are seconds.
pub struct Engine {
    pub query_crate: MemoizingCache<Vec<CrateRelease>>,
    pub get_popular_repos: MemoizingCache<Vec<Repository>>,
    pub retrieve_file_at_path: MemoizingCache<String>,
    pub popular_blacklist: Vec<RepoPath>,
}

impl Engine {
    pub closed spec fn blacklist_view(self) -> Seq<RepoPath> {
        self.popular_blacklist@
    }

    /// Registry queries are cached for 300 seconds over 500 entries, the
    /// popular listing for 10 seconds in a single entry, and fetched files
    /// indefinitely over 500 entries.
    pub fn new() -> (r: Engine)
        ensures
            r.query_crate.wf(),
            r.query_crate.view() == Seq::<crate::cache::SlotModel<Vec<CrateRelease>>>::empty(),
            r.query_crate.spec_ttl() == Some(300u64),
            r.query_crate.spec_capacity() == 500,
            r.get_popular_repos.wf(),
            r.get_popular_repos.view() == Seq::<crate::cache::SlotModel<Vec<Repository>>>::empty(),
            r.get_popular_repos.spec_ttl() == Some(10u64),
            r.get_popular_repos.spec_capacity() == 1,
            r.retrieve_file_at_path.wf(),
            r.retrieve_file_at_path.view() == Seq::<crate::cache::SlotModel<String>>::empty(),
            r.retrieve_file_at_path.spec_ttl() is None,
            r.retrieve_file_at_path.spec_capacity() == 500,
            r.blacklist_view().len() == 5,
            r.blacklist_view()[0].site == RepoSite::Github && r.blacklist_view()[0].qual@
                == "rust-lang"@ && r.blacklist_view()[0].name@ == "rust"@,
            r.blacklist_view()[1].site == RepoSite::Github && r.blacklist_view()[1].qual@
                == "google"@ && r.blacklist_view()[1].name@ == "xi-editor"@,
            r.blacklist_view()[2].site == RepoSite::Github && r.blacklist_view()[2].qual@
                == "lk-geimfari"@ && r.blacklist_view()[2].name@ == "awesomo"@,
            r.blacklist_view()[3].site == RepoSite::Github && r.blacklist_view()[3].qual@
                == "redox-os"@ && r.blacklist_view()[3].name@ == "tfs"@,
            r.blacklist_view()[4].site == RepoSite::Github && r.blacklist_view()[4].qual@
                == "carols10cents"@ && r.blacklist_view()[4].name@ == "rustlings"@,
    {
        let mut bl: Vec<RepoPath> = Vec::new();
        bl.push(
            RepoPath::from_parts(
                RepoSite::Github,
                String::from_str("rust-lang"),
                String::from_str("rust"),
            ),
        );
        bl.push(
            RepoPath::from_parts(
                RepoSite::Github,
                String::from_str("google"),
                String::from_str("xi-editor"),
            ),
        );
        bl.push(
            RepoPath::from_parts(
                RepoSite::Github,
                String::from_str("lk-geimfari"),
                String::from_str("awesomo"),
            ),
        );
        bl.push(
            RepoPath::from_parts(
                RepoSite::Github,
                String::from_str("redox-os"),
                String::from_str("tfs"),
            ),
        );
        bl.push(
            RepoPath::from_parts(
                RepoSite::Github,
                String::from_str("carols10cents"),
                String::from_str("rustlings"),
            ),
        );
        Engine {
            query_crate: MemoizingCache::new(Some(300), 500),
            get_popular_repos: MemoizingCache::new(Some(10), 1),
            retrieve_file_at_path: MemoizingCache::new(None, 500),
            popular_blacklist: bl,
        }
    }

    /// The popular listing with blacklisted repositories removed, order
    /// kept.
    pub fn filter_popular_repos(&self, repos: Vec<Repository>) -> (r: Vec<Repository>)
        ensures
            r@ == keep_unlisted(self.blacklist_view(), repos@),
    {
        let ghost bl = self.blacklist_view();
        let ghost all = repos@;
        let mut out: Vec<Repository> = Vec::new();
        proof {
            assert(all.skip(0) =~= all);
            assert(out@ + keep_unlisted(bl, all) =~= keep_unlisted(bl, all));
        }
        let mut i: usize = 0;
        while i < repos.len()
            invariant
                i <= all.len(),
                all == repos@,
                bl == self.blacklist_view(),
                keep_unlisted(bl, all) == out@ + keep_unlisted(bl, all.skip(i as int)),
            decreases all.len() - i,
        {
            let ghost tail = all.skip(i as int);
            proof {
                assert(tail[0] == all[i as int]);
                assert(tail.skip(1) =~= all.skip(i as int + 1));
            }
            let is_listed = self.contains_repo(&repos[i].path);
            if !is_listed {
                let ghost pre = out@;
                out.push(repos[i].clone_repo());
                proof {
                    assert(out@ =~= pre + seq![all[i as int]]);
                    assert(pre + (seq![all[i as int]] + keep_unlisted(bl, tail.skip(1))) =~= out@
                        + keep_unlisted(bl, tail.skip(1)));
                }
            }
            i = i + 1;
        }
        proof {
            assert(all.skip(all.len() as int) =~= Seq::<Repository>::empty());
            assert(out@ + Seq::<Repository>::empty() =~= out@);
        }
        out
    }

    /// Whether the blacklist holds this repository.
    fn contains_repo(&self, p: &RepoPath) -> (r: bool)
        ensures
            r == listed(self.blacklist_view(), *p),
    {
        let mut i: usize = 0;
        while i < self.popular_blacklist.len()
            invariant
                i <= self.popular_blacklist@.len(),
                forall|j: int|
                    0 <= j < i ==> !crate::models::same_repo(
                        #[trigger] self.popular_blacklist@[j],
                        *p,
                    ),
            decreases self.popular_blacklist@.len() - i,
        {
            let hit = self.popular_blacklist[i].matches(p);
            if hit {
                return true;
            }
            i = i + 1;
        }
        false
    }
}

/// The first ref named `HEAD`, whose object id is the repository's default
/// branch tip.
pub fn find_head_oid(refs: &Vec<Ref>) -> (r: Option<ObjectId>)
    ensures
        match r {
            Some(oid) => exists|i: int|
                0 <= i < refs@.len() && (#[trigger] refs@[i].name@) == "HEAD"@ && oid@
                    == refs@[i].oid@,
            None => forall|i: int| 0 <= i < refs@.len() ==> (#[trigger] refs@[i].name@) != "HEAD"@,
        },
{
    let head = String::from_str("HEAD");
    let mut i: usize = 0;
    while i < refs.len()
        invariant
            i <= refs@.len(),
            head@ == "HEAD"@,
            forall|j: int| 0 <= j < i ==> (#[trigger] refs@[j].name@) != "HEAD"@,
        decreases refs@.len() - i,
    {
        let hit = refs[i].name.eq(&head);
        if hit {
            return Some(ObjectId(refs[i].oid.0.clone()));
        }
        i = i + 1;
    }
    None
}

/// The clone URL of a repository: `{base}/{qualifier}/{name}.git`.
pub fn clone_url(repo: &RepoPath) -> (r: String)
    ensures
        r@ == repo.site.spec_base_uri() + "/"@ + repo.qual@ + "/"@ + repo.name@ + ".git"@,
{
    let mut u = String::from_str(repo.site.to_base_uri());
    u.append("/");
    u.append(repo.qual.as_str());
    u.append("/");
    u.append(repo.name.as_str());
    u.append(".git");
    u
}

/// The ref-advertisement URL the clone URL answers on.
pub fn ls_remote_url(repo: &RepoPath) -> (r: String)
    ensures
        r@ == repo.site.spec_base_uri() + "/"@ + repo.qual@ + "/"@ + repo.name@ + ".git"@
            + "/info/refs?service=git-upload-pack"@,
{
    let mut u = clone_url(repo);
    u.append("/info/refs?service=git-upload-pack");
    u
}

/// The raw-content URL of a manifest file at an object id.
pub open spec fn manifest_uri_text(repo: RepoPath, oid: ObjectId, path: Seq<char>) -> Seq<char> {
    "https://bitbucket.org"@ + "/"@ + repo.qual@ + "/"@ + repo.name@ + "/raw/"@ + oid@ + "/"@
        + path
}

/// Where the raw manifest file of a repository lives at a given object id.
/// Fails with a URI error exactly when the built text does not parse.
pub fn get_manifest_uri(repo_path: &RepoPath, oid: &ObjectId, path: &String) -> (r: Result<
    hyper::Uri,
    Error,
>)
    ensures
        (r is Ok) == uri_ok(manifest_uri_text(*repo_path, *oid, path@)),
        r matches Err(e) ==> e is Uri,
{
    let mut u = String::from_str("https://bitbucket.org");
    u.append("/");
    u.append(repo_path.qual.as_str());
    u.append("/");
    u.append(repo_path.name.as_str());
    u.append("/raw/");
    u.append(oid.as_ref());
    u.append("/");
    u.append(path.as_str());
    match parse_uri(&u) {
        Some(uri) => Ok(uri),
        None => Err(Error::Uri),
    }
}

/// The cache key under which a fetched file is memoized: the repository,
/// the object id and the in-tree path, joined unambiguously.
pub fn file_cache_key(repo: &RepoPath, oid: &ObjectId, path: &String) -> (r: String)
    ensures
        r@ == repo.site.spec_base_uri() + "/"@ + repo.qual@ + "/"@ + repo.name@ + "@"@ + oid@
            + ":"@ + path@,
{
    let mut k = String::from_str(repo.site.to_base_uri());
    k.append("/");
    k.append(repo.qual.as_str());
    k.append("/");
    k.append(repo.name.as_str());
    k.append("@");
    k.append(oid.as_ref());
    k.append(":");
    k.append(path.as_str());
    k
}

/// The result of analyzing one repository: each discovered package's
/// classifications, and how long the analysis took (in milliseconds).
pub struct AnalyzeDependenciesOutcome {
    pub crates: Vec<(String, AnalyzedDependencies)>,
    pub duration: u64,
}

pub open spec fn total_outdated(cs: Seq<(String, AnalyzedDependencies)>) -> int
    decreases cs.len(),
{
    if cs.len() == 0 {
        0
    } else {
        total_outdated(cs.drop_last()) + count_outdated_of(cs.last().1.deps@)
    }
}

pub open spec fn total_deps(cs: Seq<(String, AnalyzedDependencies)>) -> int
    decreases cs.len(),
{
    if cs.len() == 0 {
        0
    } else {
        total_deps(cs.drop_last()) + cs.last().1.deps@.len()
    }
}

proof fn lemma_totals_bounds(cs: Seq<(String, AnalyzedDependencies)>)
    ensures
        0 <= total_outdated(cs) <= total_deps(cs),
    decreases cs.len(),
{
    if cs.len() > 0 {
        lemma_totals_bounds(cs.drop_last());
        crate::analyzer::lemma_outdated_le_total(cs.last().1.deps@);
    }
}

impl AnalyzeDependenciesOutcome {
    /// Whether any package has any outdated dependency.
    pub fn any_outdated(&self) -> (r: bool)
        ensures
            r == exists|i: int|
                0 <= i < self.crates@.len() && any_outdated_of(#[trigger] self.crates@[i].1.deps@),
    {
        let mut i: usize = 0;
        while i < self.crates.len()
            invariant
                i <= self.crates@.len(),
                forall|j: int|
                    0 <= j < i ==> !any_outdated_of(#[trigger] self.crates@[j].1.deps@),
            decreases self.crates@.len() - i,
        {
            let any = self.crates[i].1.any_outdated();
            if any {
                return true;
            }
            i = i + 1;
        }
        false
    }

    /// The pair (outdated dependencies, all dependencies), summed over all
    /// packages.
    pub fn outdated_ratio(&self) -> (r: (usize, usize))
        requires
            total_deps(self.crates@) <= usize::MAX,
        ensures
            r.0 == total_outdated(self.crates@),
            r.1 == total_deps(self.crates@),
    {
        let mut outdated: usize = 0;
        let mut total: usize = 0;
        let mut i: usize = 0;
        while i < self.crates.len()
            invariant
                i <= self.crates@.len(),
                outdated == total_outdated(self.crates@.take(i as int)),
                total == total_deps(self.crates@.take(i as int)),
                outdated <= total,
                total_deps(self.crates@) <= usize::MAX,
            decreases self.crates@.len() - i,
        {
            proof {
                assert(self.crates@.take(i as int + 1).drop_last() =~= self.crates@.take(
                    i as int,
                ));
                assert(self.crates@.take(i as int + 1).last() == self.crates@[i as int]);
                lemma_split_totals(self.crates@, i as int + 1);
                lemma_totals_bounds(self.crates@.skip(i as int + 1));
                lemma_totals_bounds(self.crates@.take(i as int + 1));
                crate::analyzer::lemma_outdated_le_total(self.crates@[i as int].1.deps@);
            }
            let o = self.crates[i].1.count_outdated();
            let t = self.crates[i].1.count_total();
            outdated = outdated + o;
            total = total + t;
            i = i + 1;
        }
        proof {
            assert(self.crates@.take(self.crates@.len() as int) =~= self.crates@);
        }
        (outdated, total)
    }
}

/// Splitting the package list splits both sums.
proof fn lemma_split_totals(cs: Seq<(String, AnalyzedDependencies)>, i: int)
    requires
        0 <= i <= cs.len(),
    ensures
        total_deps(cs.take(i)) + total_deps(cs.skip(i)) == total_deps(cs),
        total_outdated(cs.take(i)) + total_outdated(cs.skip(i)) == total_outdated(cs),
    decreases cs.len(),
{
    if i == cs.len() {
        assert(cs.take(i) =~= cs);
        assert(cs.skip(i) =~= Seq::<(String, AnalyzedDependencies)>::empty());
    } else {
        let d = cs.drop_last();
        lemma_split_totals(d, i);
        assert(d.take(i) =~= cs.take(i));
        assert(cs.skip(i).drop_last() =~= d.skip(i));
        assert(cs.skip(i).last() == cs.last());
    }
}

} // verus!
