use depstatus::crawler::{manifest_file_path, ManifestCrawler};
use depstatus::error::Error;
use depstatus::models::{DepSource, Dependency, Manifest};

fn path_dep(name: &str, path: &str) -> Dependency {
    Dependency {
        name: name.to_string(),
        source: DepSource::Path {
            path: path.to_string(),
        },
    }
}

fn registry_dep(name: &str, req: &str) -> Dependency {
    Dependency {
        name: name.to_string(),
        source: DepSource::Registry {
            req: req.to_string(),
        },
    }
}

fn manifest(name: &str, deps: Vec<Dependency>) -> Manifest {
    Manifest {
        name: name.to_string(),
        deps,
    }
}

#[test]
fn diamond_reference_is_fetched_once() {
    let mut crawler = ManifestCrawler::new(&"/".to_string());
    let root = crawler.next_fetch().expect("the root must be scheduled");
    crawler.on_manifest(
        &root,
        manifest("root", vec![path_dep("a", "libs/a"), path_dep("b", "libs/b")]),
    );

    // Both sub-packages reference the same shared crate.
    let a = crawler.next_fetch().unwrap();
    assert_eq!(a, "libs/a");
    crawler.on_manifest(&a, manifest("a", vec![path_dep("shared", "../shared")]));
    let b = crawler.next_fetch().unwrap();
    assert_eq!(b, "libs/b");
    crawler.on_manifest(&b, manifest("b", vec![path_dep("shared", "../shared")]));

    // The diamond edge to the shared crate is followed exactly once.
    let s = crawler.next_fetch().unwrap();
    assert_eq!(s, "libs/shared");
    crawler.on_manifest(&s, manifest("shared", vec![registry_dep("serde", "^1.0")]));
    assert_eq!(crawler.next_fetch(), None);
    assert!(!crawler.pending());

    let fetched = vec![root, a, b, s];
    for i in 0..fetched.len() {
        for j in (i + 1)..fetched.len() {
            assert_ne!(fetched[i], fetched[j]);
        }
    }

    let packages = crawler.into_result().unwrap();
    assert_eq!(packages.len(), 4);
}

#[test]
fn unnormalized_references_are_deduplicated() {
    let mut crawler = ManifestCrawler::new(&"/".to_string());
    let root = crawler.next_fetch().unwrap();
    // Two spellings of the same directory must schedule one fetch.
    crawler.on_manifest(
        &root,
        manifest(
            "root",
            vec![path_dep("a", "libs/./a/../a"), path_dep("a2", "libs/a")],
        ),
    );
    let first = crawler.next_fetch();
    assert_eq!(first, Some("libs/a".to_string()));
    let second = crawler.next_fetch();
    assert_eq!(second, None);
}

#[test]
fn manifest_file_lives_under_the_package_directory() {
    assert_eq!(manifest_file_path(&"libs/a".to_string()), "libs/a/Cargo.toml");
    assert_eq!(manifest_file_path(&"".to_string()), "Cargo.toml");
    assert_eq!(
        manifest_file_path(&"libs/./a/..".to_string()),
        "libs/Cargo.toml"
    );
}

#[test]
fn missing_manifest_fails_the_whole_crawl() {
    let mut crawler = ManifestCrawler::new(&"/".to_string());
    let root = crawler.next_fetch().unwrap();
    crawler.on_manifest(
        &root,
        manifest("root", vec![path_dep("a", "libs/a"), path_dep("b", "libs/b")]),
    );
    let a = crawler.next_fetch().unwrap();
    crawler.on_manifest(&a, manifest("a", vec![registry_dep("serde", "^1.0")]));
    let _b = crawler.next_fetch().unwrap();
    crawler.on_fetch_failed(Error::Io);

    // Even though two manifests were merged, the crawl yields no partial
    // package map.
    match crawler.into_result() {
        Err(Error::Io) => {}
        Err(_) => panic!("the first failure must be reported"),
        Ok(_) => panic!("a failed crawl must not yield a package map"),
    }
}

#[test]
fn successful_crawl_merges_all_packages() {
    let mut crawler = ManifestCrawler::new(&"/".to_string());
    let root = crawler.next_fetch().unwrap();
    crawler.on_manifest(
        &root,
        manifest("root", vec![path_dep("child", "sub"), registry_dep("log", "^0.4")]),
    );
    let sub = crawler.next_fetch().unwrap();
    assert_eq!(sub, "sub");
    crawler.on_manifest(&sub, manifest("child", vec![registry_dep("serde", "^1.0")]));
    assert!(!crawler.pending());

    let packages = crawler.into_result().unwrap();
    assert_eq!(packages.len(), 2);
    assert_eq!(packages[0].0, "root");
    assert_eq!(packages[0].1.len(), 2);
    assert_eq!(packages[1].0, "child");
    assert_eq!(packages[1].1.len(), 1);
}
