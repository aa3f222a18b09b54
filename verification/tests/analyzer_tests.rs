use depstatus::analyzer::{analyze_dependency, AnalyzedDependencies, Classification};
use depstatus::models::{CrateRelease, DepSource, Dependency, Version};

fn v(major: u64, minor: u64, patch: u64) -> Version {
    Version {
        major,
        minor,
        patch,
    }
}

fn release(major: u64, minor: u64, patch: u64) -> CrateRelease {
    CrateRelease {
        version: v(major, minor, patch),
        yanked: false,
    }
}

fn yanked(major: u64, minor: u64, patch: u64) -> CrateRelease {
    CrateRelease {
        version: v(major, minor, patch),
        yanked: true,
    }
}

fn registry_dep(name: &str, req: &str) -> Dependency {
    Dependency {
        name: name.to_string(),
        source: DepSource::Registry {
            req: req.to_string(),
        },
    }
}

fn path_dep(name: &str) -> Dependency {
    Dependency {
        name: name.to_string(),
        source: DepSource::Path {
            path: "sub".to_string(),
        },
    }
}

#[test]
fn constraint_admitting_latest_is_current() {
    let releases = vec![release(1, 0, 0), release(1, 2, 0), yanked(2, 0, 0)];
    let a = analyze_dependency(&registry_dep("serde", "^1.0"), &releases);
    // The yanked 2.0.0 is not available, so 1.2.0 is the latest and ^1.0
    // admits it.
    assert_eq!(a.latest, Some(v(1, 2, 0)));
    assert_eq!(a.latest_that_matches, Some(v(1, 2, 0)));
    assert_eq!(a.classification, Classification::Current);
}

#[test]
fn constraint_excluding_newer_release_is_outdated() {
    let releases = vec![release(1, 0, 0), release(1, 2, 0)];
    let a = analyze_dependency(&registry_dep("serde", "=1.0.0"), &releases);
    assert_eq!(a.latest, Some(v(1, 2, 0)));
    assert_eq!(a.latest_that_matches, Some(v(1, 0, 0)));
    assert_eq!(a.classification, Classification::Outdated);
}

#[test]
fn path_dependency_is_indeterminate() {
    let releases = vec![release(1, 0, 0)];
    let a = analyze_dependency(&path_dep("local"), &releases);
    assert_eq!(a.classification, Classification::Indeterminate);
    assert_eq!(a.latest, None);
}

#[test]
fn unparsable_requirement_is_indeterminate() {
    let releases = vec![release(1, 0, 0)];
    let a = analyze_dependency(&registry_dep("serde", "not a requirement"), &releases);
    assert_eq!(a.classification, Classification::Indeterminate);
}

#[test]
fn no_available_release_is_indeterminate() {
    let a = analyze_dependency(&registry_dep("ghost", "^1.0"), &vec![]);
    assert_eq!(a.classification, Classification::Indeterminate);
    assert_eq!(a.latest, None);

    let only_yanked = vec![yanked(1, 0, 0)];
    let b = analyze_dependency(&registry_dep("ghost", "^1.0"), &only_yanked);
    assert_eq!(b.classification, Classification::Indeterminate);
}

#[test]
fn analyze_covers_every_dependency() {
    let deps = vec![
        registry_dep("serde", "^1.0"),
        registry_dep("log", "=0.3.0"),
        path_dep("local"),
    ];
    let releases = vec![
        vec![release(1, 0, 0), release(1, 2, 0)],
        vec![release(0, 3, 0), release(0, 4, 1)],
        vec![],
    ];
    let analyzed = AnalyzedDependencies::analyze(&deps, &releases);
    assert_eq!(analyzed.deps.len(), 3);
    assert_eq!(analyzed.deps[0].classification, Classification::Current);
    assert_eq!(analyzed.deps[1].classification, Classification::Outdated);
    assert_eq!(analyzed.deps[2].classification, Classification::Indeterminate);
    assert!(analyzed.any_outdated());
    assert_eq!(analyzed.count_outdated(), 1);
    assert_eq!(analyzed.count_total(), 3);
}
