use package_tree::assoc::AssocVec;
use package_tree::files::{get_source_files, DirListings, FileMap, FileMeta, ListingOutcome};
use package_tree::graph::{build_package, extend_with_children, make};
use package_tree::manifest::{Manifest, ManifestStore, NamespaceDecl, SourceKind, Sources, SourceSpec, Subdirs};
use package_tree::naming::{file_path_to_module_name, namespace_from_package_name};
use package_tree::package::{Package, PackageContents};
use package_tree::source_dirs::{get_source_dirs, FolderSpec};

fn meta(n: u64) -> FileMeta {
    FileMeta { size: n, modified: 0 }
}

fn src_spec(dir: &str, subdirs: Subdirs, kind: SourceKind) -> SourceSpec {
    SourceSpec { dir: dir.to_string(), subdirs, kind }
}

fn manifest(name: &str, namespace: Option<NamespaceDecl>, sources: Sources, deps: Option<Vec<&str>>) -> Manifest {
    Manifest {
        name: name.to_string(),
        namespace,
        sources,
        dependencies: deps.map(|v| v.into_iter().map(|s| s.to_string()).collect()),
    }
}

#[test]
fn namespace_strips_at_and_slash() {
    assert_eq!(namespace_from_package_name("@scope/my-pkg"), "ScopeMyPkg");
}

#[test]
fn namespace_plain_name() {
    assert_eq!(namespace_from_package_name("my_pkg"), "MyPkg");
}

#[test]
fn namespace_idempotent_on_shaped() {
    let once = namespace_from_package_name("my-cool-pkg");
    assert_eq!(once, "MyCoolPkg");
    assert_eq!(namespace_from_package_name(&once), once);
}

#[test]
fn module_name_without_namespace() {
    assert_eq!(file_path_to_module_name("src/A.res", &None), "A");
}

#[test]
fn module_name_with_namespace() {
    assert_eq!(file_path_to_module_name("/p/src/b_mod.res", &Some("Ns".to_string())), "B_mod-Ns");
}

#[test]
fn resolve_full_recursion_single_entry() {
    let s = src_spec("src", Subdirs::Recurse(true), SourceKind::Ordinary);
    let r = get_source_dirs("/proj", &s);
    assert_eq!(r.count(), 1);
    let f = FolderSpec { dir: "src".to_string(), recurse: true, kind: SourceKind::Ordinary };
    assert!(r.contains("/proj/src", &f));
}

#[test]
fn resolve_explicit_children() {
    let child = src_spec("sub", Subdirs::Absent, SourceKind::Dev);
    let s = src_spec("src", Subdirs::Explicit(vec![child]), SourceKind::Ordinary);
    let r = get_source_dirs("/proj", &s);
    assert_eq!(r.count(), 2);
    let top = FolderSpec { dir: "src".to_string(), recurse: false, kind: SourceKind::Ordinary };
    let sub = FolderSpec { dir: "sub".to_string(), recurse: false, kind: SourceKind::Dev };
    assert!(r.contains("/proj/src", &top));
    assert!(r.contains("/proj/src/sub", &sub));
}

#[test]
fn dev_sources_never_collected() {
    let mut listing: FileMap = AssocVec::new();
    listing.insert("/proj/src/sub/X.res".to_string(), meta(1));
    let mut listings: DirListings = AssocVec::new();
    listings.insert("/proj/src/sub".to_string(), ListingOutcome::Files(listing));
    let f = FolderSpec { dir: "sub".to_string(), recurse: false, kind: SourceKind::Dev };
    let (files, warned) = get_source_files(&"/proj/src/sub".to_string(), &f, &listings);
    assert_eq!(files.len(), 0);
    assert!(!warned);
}

#[test]
fn unreadable_folder_warns_and_is_empty() {
    let listings: DirListings = AssocVec::new();
    let f = FolderSpec { dir: "src".to_string(), recurse: false, kind: SourceKind::Ordinary };
    let (files, warned) = get_source_files(&"/proj/src".to_string(), &f, &listings);
    assert_eq!(files.len(), 0);
    assert!(warned);
}

#[test]
fn make_root_with_two_files() {
    let mut store: ManifestStore = AssocVec::new();
    store.insert(
        "/proj".to_string(),
        manifest("app", None, Sources::Single(src_spec("src", Subdirs::Recurse(true), SourceKind::Ordinary)), None),
    );
    let mut listing: FileMap = AssocVec::new();
    listing.insert("/proj/src/A.res".to_string(), meta(1));
    listing.insert("/proj/src/B.res".to_string(), meta(2));
    let mut listings: DirListings = AssocVec::new();
    listings.insert("/proj/src".to_string(), ListingOutcome::Files(listing));
    let (g, warns) = make("/proj", &store, &listings).expect("make should succeed");
    assert_eq!(g.len(), 1);
    assert!(warns.is_empty());
    let p: &Package = g.get("/proj").expect("root package");
    assert_eq!(p.name, "app");
    assert!(p.namespace.is_none());
    let folder = FolderSpec { dir: "src".to_string(), recurse: true, kind: SourceKind::Ordinary };
    assert!(p.source_folders.contains("/proj/src", &folder));
    match &p.contents {
        PackageContents::Resolved { source_files, modules } => {
            assert!(source_files.get("/proj/src/A.res").is_some());
            assert!(source_files.get("/proj/src/B.res").is_some());
            assert_eq!(source_files.len(), 2);
            assert!(modules.contains("A"));
            assert!(modules.contains("B"));
            assert_eq!(modules.count(), 2);
        }
        PackageContents::Unresolved => panic!("package not enriched"),
    }
}

#[test]
fn diamond_dependency_single_record() {
    let src = || Sources::Single(src_spec("src", Subdirs::Recurse(true), SourceKind::Ordinary));
    let mut store: ManifestStore = AssocVec::new();
    store.insert("/proj".to_string(), manifest("root", None, src(), Some(vec!["a", "b"])));
    store.insert("/proj/node_modules/a".to_string(), manifest("a", None, src(), Some(vec!["d"])));
    store.insert("/proj/node_modules/b".to_string(), manifest("b", None, src(), Some(vec!["d"])));
    store.insert("/proj/node_modules/d".to_string(), manifest("d", None, src(), None));
    let g = build_package("/proj", &store).expect("diamond should build");
    assert_eq!(g.len(), 4);
    assert!(g.get("/proj/node_modules/d").is_some());
    assert!(g.get("/proj").is_some());
}

#[test]
fn missing_dependency_manifest_is_fatal() {
    let src = || Sources::Single(src_spec("src", Subdirs::Recurse(true), SourceKind::Ordinary));
    let mut store: ManifestStore = AssocVec::new();
    store.insert("/proj".to_string(), manifest("root", None, src(), Some(vec!["missing"])));
    let listings: DirListings = AssocVec::new();
    let r = make("/proj", &store, &listings);
    match r {
        Err(e) => assert_eq!(e.dir, "/proj/node_modules/missing"),
        Ok(_) => panic!("graph construction must fail"),
    }
}

#[test]
fn namespace_flag_and_text() {
    let src = || Sources::Single(src_spec("src", Subdirs::Recurse(true), SourceKind::Ordinary));
    let mut store: ManifestStore = AssocVec::new();
    store.insert(
        "/proj".to_string(),
        manifest("my-pkg", Some(NamespaceDecl::Flag(true)), src(), None),
    );
    let mut listing: FileMap = AssocVec::new();
    listing.insert("/proj/src/A.res".to_string(), meta(1));
    let mut listings: DirListings = AssocVec::new();
    listings.insert("/proj/src".to_string(), ListingOutcome::Files(listing));
    let (g, _) = make("/proj", &store, &listings).expect("make");
    let p = g.get("/proj").unwrap();
    assert_eq!(p.namespace.as_deref(), Some("MyPkg"));
    match &p.contents {
        PackageContents::Resolved { modules, .. } => {
            assert!(modules.contains("MyPkg"));
            assert!(modules.contains("A-MyPkg"));
        }
        PackageContents::Unresolved => panic!("not enriched"),
    }

    let mut store2: ManifestStore = AssocVec::new();
    store2.insert(
        "/proj".to_string(),
        manifest("my-pkg", Some(NamespaceDecl::Text("true".to_string())), src(), None),
    );
    let g2 = build_package("/proj", &store2).expect("build");
    assert_eq!(g2.get("/proj").unwrap().namespace.as_deref(), Some("MyPkg"));

    let mut store3: ManifestStore = AssocVec::new();
    store3.insert(
        "/proj".to_string(),
        manifest("my-pkg", Some(NamespaceDecl::Text("Custom".to_string())), src(), None),
    );
    let g3 = build_package("/proj", &store3).expect("build");
    assert_eq!(g3.get("/proj").unwrap().namespace.as_deref(), Some("Custom"));

    let mut store4: ManifestStore = AssocVec::new();
    store4.insert(
        "/proj".to_string(),
        manifest("my-pkg", Some(NamespaceDecl::Flag(false)), src(), None),
    );
    let g4 = build_package("/proj", &store4).expect("build");
    assert!(g4.get("/proj").unwrap().namespace.is_none());
}

#[test]
fn dev_subdir_files_excluded_from_enrichment() {
    let child = src_spec("sub", Subdirs::Absent, SourceKind::Dev);
    let sources = Sources::Single(src_spec("src", Subdirs::Explicit(vec![child]), SourceKind::Ordinary));
    let mut store: ManifestStore = AssocVec::new();
    store.insert("/proj".to_string(), manifest("app", None, sources, None));
    let mut top: FileMap = AssocVec::new();
    top.insert("/proj/src/A.res".to_string(), meta(1));
    let mut sub: FileMap = AssocVec::new();
    sub.insert("/proj/src/sub/Hidden.res".to_string(), meta(9));
    let mut listings: DirListings = AssocVec::new();
    listings.insert("/proj/src".to_string(), ListingOutcome::Files(top));
    listings.insert("/proj/src/sub".to_string(), ListingOutcome::Files(sub));
    let (g, warns) = make("/proj", &store, &listings).expect("make");
    assert!(warns.is_empty());
    let p = g.get("/proj").unwrap();
    assert_eq!(p.source_folders.count(), 2);
    match &p.contents {
        PackageContents::Resolved { source_files, .. } => {
            assert!(source_files.get("/proj/src/A.res").is_some());
            assert!(source_files.get("/proj/src/sub/Hidden.res").is_none());
            assert_eq!(source_files.len(), 1);
        }
        PackageContents::Unresolved => panic!("not enriched"),
    }
}

#[test]
fn unreadable_folder_yields_warning_from_make() {
    let mut store: ManifestStore = AssocVec::new();
    store.insert(
        "/proj".to_string(),
        manifest("app", None, Sources::Single(src_spec("src", Subdirs::Recurse(true), SourceKind::Ordinary)), None),
    );
    let listings: DirListings = AssocVec::new();
    let (g, warns) = make("/proj", &store, &listings).expect("make");
    assert_eq!(warns, vec!["/proj/src".to_string()]);
    let p = g.get("/proj").unwrap();
    match &p.contents {
        PackageContents::Resolved { source_files, .. } => assert_eq!(source_files.len(), 0),
        PackageContents::Unresolved => panic!("not enriched"),
    }
}
