use depstatus::analyzer::{AnalyzedDependencies, Classification};
use depstatus::cache::GetOutcome;
use depstatus::engine::{
    clone_url, file_cache_key, find_head_oid, get_manifest_uri, ls_remote_url,
    AnalyzeDependenciesOutcome, Engine,
};
use depstatus::models::{
    CrateRelease, DepSource, Dependency, RepoPath, RepoSite, Repository, Version,
};
use depstatus::{ObjectId, Ref};

fn repo(site: RepoSite, qual: &str, name: &str) -> RepoPath {
    RepoPath::from_parts(site, qual.to_string(), name.to_string())
}

fn repository(qual: &str, name: &str) -> Repository {
    Repository {
        path: repo(RepoSite::Github, qual, name),
        description: String::new(),
    }
}

#[test]
fn clone_url_is_assembled_from_the_parts() {
    let r = repo(RepoSite::Github, "rust-lang", "rust");
    assert_eq!(clone_url(&r), "https://github.com/rust-lang/rust.git");
    let b = repo(RepoSite::Bitbucket, "team", "proj");
    assert_eq!(clone_url(&b), "https://bitbucket.org/team/proj.git");
}

#[test]
fn ls_remote_url_points_at_the_ref_advertisement() {
    let r = repo(RepoSite::Gitlab, "group", "thing");
    assert_eq!(
        ls_remote_url(&r),
        "https://gitlab.com/group/thing.git/info/refs?service=git-upload-pack"
    );
}

#[test]
fn manifest_uri_is_built_and_validated() {
    let r = repo(RepoSite::Bitbucket, "team", "proj");
    let refs = depstatus::parser::parse(&sample_payload()).unwrap();
    let oid = find_head_oid(&refs).unwrap();
    let uri = get_manifest_uri(&r, &oid, &"sub/Cargo.toml".to_string()).unwrap();
    assert_eq!(
        uri.to_string(),
        format!(
            "https://bitbucket.org/team/proj/raw/{}/sub/Cargo.toml",
            oid.as_ref()
        )
    );
    // A path that cannot appear in a URI fails with a URI error.
    let bad = get_manifest_uri(&r, &oid, &"with space".to_string());
    assert!(matches!(bad, Err(depstatus::error::Error::Uri)));
}

fn pkt(line: &str) -> Vec<u8> {
    let mut out = format!("{:04x}", line.len() + 4).into_bytes();
    out.extend_from_slice(line.as_bytes());
    out
}

fn sample_payload() -> Vec<u8> {
    let mut body = Vec::new();
    body.extend_from_slice(&pkt("# service=git-upload-pack\n"));
    body.extend_from_slice(b"0000");
    body.extend_from_slice(&pkt(
        "990fa3a054f979b66989c79df21b8c71d8eb946f HEAD\0caps\n",
    ));
    body.extend_from_slice(&pkt(
        "1111111111111111111111111111111111111111 refs/heads/main\n",
    ));
    body.extend_from_slice(b"0000");
    body
}

#[test]
fn file_cache_keys_separate_the_parts() {
    let refs = depstatus::parser::parse(&sample_payload()).unwrap();
    let oid = find_head_oid(&refs).unwrap();
    let r = repo(RepoSite::Github, "team", "proj");
    assert_eq!(
        file_cache_key(&r, &oid, &"sub/Cargo.toml".to_string()),
        format!(
            "https://github.com/team/proj@{}:sub/Cargo.toml",
            oid.as_ref()
        )
    );
}

#[test]
fn head_oid_is_taken_from_the_head_ref() {
    let refs = depstatus::parser::parse(&sample_payload()).unwrap();
    let oid = find_head_oid(&refs).unwrap();
    assert_eq!(oid.as_ref(), "990fa3a054f979b66989c79df21b8c71d8eb946f");

    let no_head = vec![Ref {
        name: "refs/heads/main".to_string(),
        oid: ObjectId::clone(&refs[1].oid),
    }];
    assert!(find_head_oid(&no_head).is_none());
}

#[test]
fn blacklisted_repositories_are_filtered_from_the_popular_listing() {
    let engine = Engine::new();
    let repos = vec![
        repository("rust-lang", "rust"),
        repository("someone", "useful-crate"),
        repository("google", "xi-editor"),
    ];
    let kept = engine.filter_popular_repos(repos);
    assert_eq!(kept.len(), 1);
    assert_eq!(kept[0].path.name, "useful-crate");
}

#[test]
fn engine_caches_answer_by_interactor_key() {
    let mut engine = Engine::new();
    let key = "serde".to_string();
    assert!(matches!(
        engine.query_crate.get(&key, 0),
        GetOutcome::MustCompute
    ));
    let releases = vec![CrateRelease {
        version: Version {
            major: 1,
            minor: 0,
            patch: 0,
        },
        yanked: false,
    }];
    engine.query_crate.complete(&key, releases, 1);
    // Within the 300 second window the registry is not asked again.
    assert!(matches!(engine.query_crate.get(&key, 200), GetOutcome::Hit(_)));
    assert!(matches!(
        engine.query_crate.get(&key, 302),
        GetOutcome::MustCompute
    ));
}

#[test]
fn outdated_ratio_sums_over_all_packages() {
    let mk = |classifications: &[Classification]| -> AnalyzedDependencies {
        let deps: Vec<Dependency> = classifications
            .iter()
            .map(|_| Dependency {
                name: "d".to_string(),
                source: DepSource::Path {
                    path: "p".to_string(),
                },
            })
            .collect();
        let releases: Vec<Vec<CrateRelease>> = classifications.iter().map(|_| vec![]).collect();
        let mut analyzed = AnalyzedDependencies::analyze(&deps, &releases);
        for (a, c) in analyzed.deps.iter_mut().zip(classifications.iter()) {
            a.classification = *c;
        }
        analyzed
    };
    let outcome = AnalyzeDependenciesOutcome {
        crates: vec![
            (
                "one".to_string(),
                mk(&[Classification::Outdated, Classification::Current]),
            ),
            ("two".to_string(), mk(&[Classification::Current])),
        ],
        duration: 42,
    };
    assert_eq!(outcome.outdated_ratio(), (1, 3));
    assert!(outcome.any_outdated());

    let all_current = AnalyzeDependenciesOutcome {
        crates: vec![("one".to_string(), mk(&[Classification::Current]))],
        duration: 1,
    };
    assert_eq!(all_current.outdated_ratio(), (0, 1));
    assert!(!all_current.any_outdated());
}
