use arctic::versions::{
    empty_picker_text, installed_count, list_rows, picker_rows, resolve_version, toggle_favorite,
    version_line, visible_versions, Latest, VersionEntry, VersionKind, VersionManifest, VersionView,
};

fn entry(id: &str, kind: VersionKind, time: &str) -> VersionEntry {
    VersionEntry {
        id: id.to_string(),
        kind,
        release_time: time.to_string(),
    }
}

fn manifest() -> VersionManifest {
    VersionManifest {
        latest: Latest {
            release: "1.21".to_string(),
            snapshot: "24w01a".to_string(),
        },
        versions: vec![
            entry("24w01a", VersionKind::Snapshot, "t"),
            entry("1.21", VersionKind::Release, "t"),
        ],
    }
}

#[test]
fn resolves_aliases() {
    let manifest = manifest();
    assert_eq!(resolve_version(&manifest, "latest").unwrap().id, "1.21");
    assert_eq!(
        resolve_version(&manifest, "latest-snapshot").unwrap().id,
        "24w01a"
    );
    assert_eq!(resolve_version(&manifest, "1.21").unwrap().id, "1.21");
    assert!(resolve_version(&manifest, "9.9").is_err());
}

#[test]
fn unknown_versions_are_explained() {
    let manifest = manifest();
    assert_eq!(
        resolve_version(&manifest, "latest-release").unwrap().id,
        "1.21"
    );
    let err = resolve_version(&manifest, "9.9").unwrap_err();
    assert_eq!(err.message(), "unknown version '9.9' (see `arctic versions --all`)");
}

fn big_manifest() -> VersionManifest {
    VersionManifest {
        latest: Latest {
            release: "1.21.4".to_string(),
            snapshot: "25w02a".to_string(),
        },
        versions: vec![
            entry("25w02a", VersionKind::Snapshot, "2025-01-08T12:00:00+00:00"),
            entry("1.21.4", VersionKind::Release, "2024-12-03T10:12:57+00:00"),
            entry("1.21.3", VersionKind::Release, "2024-10-23T12:28:15+00:00"),
            entry("b1.7.3", VersionKind::OldBeta, "2011-07-07"),
            entry("1.20.1", VersionKind::Release, "2023-06-12T13:25:51+00:00"),
        ],
    }
}

#[test]
fn version_listing() {
    let m = big_manifest();
    let none: Vec<String> = vec![];
    assert_eq!(list_rows(&m, false, false, &none, None), vec![1, 2, 4]);
    assert_eq!(list_rows(&m, true, false, &none, None), vec![0, 1, 2, 3, 4]);
    assert_eq!(list_rows(&m, false, false, &none, Some(2)), vec![1, 2]);
    assert_eq!(list_rows(&m, true, false, &none, Some(0)), Vec::<usize>::new());
    let installed = vec!["1.20.1".to_string(), "b1.7.3".to_string()];
    assert_eq!(list_rows(&m, false, true, &installed, None), vec![4]);
    assert_eq!(list_rows(&m, true, true, &installed, Some(5)), vec![3, 4]);
}

#[test]
fn version_lines() {
    let m = big_manifest();
    assert_eq!(
        version_line(&m.versions[1], true, true),
        "1.21.4                 2024-12-03  installed  latest"
    );
    assert_eq!(version_line(&m.versions[3], false, false), "b1.7.3                 2011-07-07");
    let long = entry("a-very-long-version-id-indeed", VersionKind::Other, "2020");
    assert_eq!(version_line(&long, false, false), "a-very-long-version-id-indeed 2020");
}

#[test]
fn picker_versions() {
    let m = big_manifest();
    assert_eq!(visible_versions(&m, false, false), vec![1, 2, 4]);
    assert_eq!(visible_versions(&m, true, false), vec![0, 1, 2, 4]);
    assert_eq!(visible_versions(&m, false, true), vec![1, 2, 3, 4]);
    let ids: Vec<String> = ["1.21.4", "1.21.3", "1.20.1"].iter().map(|s| s.to_string()).collect();
    let installed = vec!["1.21.3".to_string()];
    let favorites = vec!["1.20.1".to_string(), "1.21.4".to_string()];
    assert_eq!(picker_rows(&ids, "", VersionView::All, &installed, &favorites), vec![0, 1, 2]);
    assert_eq!(picker_rows(&ids, " 1.21 ", VersionView::All, &installed, &favorites), vec![0, 1]);
    assert_eq!(picker_rows(&ids, "", VersionView::Installed, &installed, &favorites), vec![1]);
    assert_eq!(picker_rows(&ids, "1.2", VersionView::Favorites, &installed, &favorites), vec![0, 2]);
    assert_eq!(picker_rows(&ids, "X", VersionView::All, &installed, &favorites), Vec::<usize>::new());
    assert_eq!(installed_count(&ids, &installed), 1);
    assert_eq!(empty_picker_text(VersionView::Favorites), "Star a version to keep it here.");
    assert_eq!(empty_picker_text(VersionView::All), "No matching versions");
}

#[test]
fn favorites_toggle() {
    let mut favs = vec!["1.20.1".to_string()];
    toggle_favorite(&mut favs, "1.21.4");
    assert_eq!(favs, vec!["1.20.1".to_string(), "1.21.4".to_string()]);
    toggle_favorite(&mut favs, "1.21.4");
    assert_eq!(favs, vec!["1.20.1".to_string()]);
    let mut twice = vec!["a".to_string(), "b".to_string(), "a".to_string()];
    toggle_favorite(&mut twice, "a");
    assert_eq!(twice, vec!["b".to_string()]);
}
