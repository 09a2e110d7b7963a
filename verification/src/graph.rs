//! Package-graph discovery and enrichment: starting from the project root's
//! manifest, every declared dependency is resolved to one package record per
//! unique package directory; a second pass collects each package's source
//! files and derives its module identifiers.

use vstd::prelude::*;
use crate::assoc::AssocVec;
use crate::files::{collect_spec, collect_warn, get_source_files, DirListings, FileMap, FileMeta};
use crate::manifest::{
    lemma_specs_view_index,
    lemma_specs_view_len,
    Manifest,
    ManifestStore,
    ManifestV,
    NamespaceDecl,
    Sources,
    SourceSpec,
    Subdirs,
};
use crate::naming::{file_path_to_module_name, module_name_spec};
use crate::package::{
    build_package_record,
    package_of,
    ContentsV,
    ModuleSet,
    Package,
    PackageContents,
    PackageV,
};
use crate::source_dirs::{FolderSet, FolderSpecV};
use crate::strutil::{dep_dir, dep_dir_of};

verus! {

broadcast use vstd::set::group_set_axioms;

/// The discovered package graph: one record per unique package directory.
pub type PackageGraph = AssocVec<Package>;

/// A fatal failure of graph discovery: the manifest for a required package
/// directory is absent from the store.
#[derive(Debug)]
pub struct BuildError {
    pub dir: String,
}

/// A copy of a source declaration, equal to the original in every observable
/// part.
#[verifier::loop_isolation(false)]
fn clone_source_spec(s: &SourceSpec) -> (r: SourceSpec)
    ensures
        r@ == s@,
    decreases *s,
{
    let subdirs = match &s.subdirs {
        Subdirs::Absent => Subdirs::Absent,
        Subdirs::Recurse(b) => Subdirs::Recurse(*b),
        Subdirs::Explicit(v) => {
            let ghost cs = crate::manifest::specs_view(v@);
            proof {
                lemma_specs_view_len(v@);
            }
            let mut out: Vec<SourceSpec> = Vec::new();
            let n = v.len();
            let mut i: usize = 0;
            while i < n
                invariant
                    n == v@.len(),
                    i <= n,
                    out@.len() == i,
                    crate::manifest::specs_view(out@) == cs.take(i as int),
                decreases n - i,
            {
                proof {
                    lemma_specs_view_index(v@, i as int);
                    let ghost sd = (*s).subdirs;
                    assert(sd is Explicit);
                    assert(sd->Explicit_0 == *v);
                    assert(decreases_to!(*s => sd));
                    assert(decreases_to!(sd => sd->Explicit_0));
                    assert(decreases_to!(*v => v@));
                    assert(decreases_to!(v@ => v@[i as int]));
                    assert(decreases_to!(*s => v@[i as int]));
                }
                let c = clone_source_spec(&v[i]);
                let ghost oldout = out@;
                out.push(c);
                proof {
                    assert(out@.drop_last() =~= oldout);
                    assert(crate::manifest::specs_view(out@) =~= cs.take(i + 1));
                }
                i = i + 1;
            }
            proof {
                assert(cs.take(n as int) =~= cs);
            }
            Subdirs::Explicit(out)
        },
    };
    let r = SourceSpec { dir: s.dir.clone(), subdirs, kind: s.kind };
    r
}

/// A copy of a manifest, equal to the original in every observable part.
#[verifier::loop_isolation(false)]
fn clone_manifest(m: &Manifest) -> (r: Manifest)
    ensures
        r@ == m@,
{
    let namespace = match &m.namespace {
        None => None,
        Some(NamespaceDecl::Flag(b)) => Some(NamespaceDecl::Flag(*b)),
        Some(NamespaceDecl::Text(t)) => Some(NamespaceDecl::Text(t.clone())),
    };
    let sources = match &m.sources {
        Sources::Single(s) => Sources::Single(clone_source_spec(s)),
        Sources::Multiple(v) => {
            let ghost cs = crate::manifest::specs_view(v@);
            proof {
                lemma_specs_view_len(v@);
            }
            let mut out: Vec<SourceSpec> = Vec::new();
            let n = v.len();
            let mut i: usize = 0;
            while i < n
                invariant
                    n == v@.len(),
                    i <= n,
                    out@.len() == i,
                    crate::manifest::specs_view(out@) == cs.take(i as int),
                decreases n - i,
            {
                proof {
                    lemma_specs_view_index(v@, i as int);
                }
                let c = clone_source_spec(&v[i]);
                let ghost oldout = out@;
                out.push(c);
                proof {
                    assert(out@.drop_last() =~= oldout);
                    assert(crate::manifest::specs_view(out@) =~= cs.take(i + 1));
                }
                i = i + 1;
            }
            proof {
                assert(cs.take(n as int) =~= cs);
            }
            Sources::Multiple(out)
        },
    };
    let dependencies = match &m.dependencies {
        None => None,
        Some(v) => {
            let mut out: Vec<String> = Vec::new();
            let n = v.len();
            let mut i: usize = 0;
            while i < n
                invariant
                    n == v@.len(),
                    i <= n,
                    out@ == v@.take(i as int),
                decreases n - i,
            {
                out.push(v[i].clone());
                proof {
                    assert(out@ =~= v@.take(i + 1));
                }
                i = i + 1;
            }
            proof {
                assert(v@.take(n as int) =~= v@);
            }
            Some(out)
        },
    };
    let r = Manifest { name: m.name.clone(), namespace, sources, dependencies };
    proof {
        assert(r@.dependencies =~= m@.dependencies);
    }
    r
}

/// A package record fits its directory: it is exactly what discovery builds
/// there from its own manifest and recorded parent.
pub open spec fn pkg_matches(dir: Seq<char>, p: PackageV) -> bool {
    p == package_of(dir, p.parent, p.manifest)
}

/// The directory is the dependency directory of some dependency that a graph
/// member's manifest declares.
pub open spec fn required_by_graph(
    root: Seq<char>,
    g: Map<Seq<char>, PackageV>,
    d: Seq<char>,
) -> bool {
    exists|d2: Seq<char>, k: int|
        g.contains_key(d2) && 0 <= k < g[d2].manifest.dependencies.len() && d == dep_dir(
            root,
            #[trigger] g[d2].manifest.dependencies[k],
        )
}

/// The directory is the project root or the dependency directory of some
/// dependency that a stored manifest declares.
pub open spec fn required_dir(
    root: Seq<char>,
    store: Map<Seq<char>, ManifestV>,
    d: Seq<char>,
) -> bool {
    d == root || exists|d2: Seq<char>, k: int|
        store.contains_key(d2) && 0 <= k < store[d2].dependencies.len() && d == dep_dir(
            root,
            #[trigger] store[d2].dependencies[k],
        )
}

/// A finished discovery graph over a manifest store: the root is present;
/// every member is built from the stored manifest of its own directory;
/// every declared dependency of a member is present; and nothing else is.
pub open spec fn graph_complete(
    root: Seq<char>,
    store: Map<Seq<char>, ManifestV>,
    g: Map<Seq<char>, PackageV>,
) -> bool {
    &&& g.contains_key(root)
    &&& forall|d: Seq<char>|
        #[trigger] g.contains_key(d) ==> store.contains_key(d) && g[d].manifest == store[d]
            && pkg_matches(d, g[d])
    &&& forall|d: Seq<char>, k: int|
        g.contains_key(d) && 0 <= k < g[d].manifest.dependencies.len() ==> g.contains_key(
            dep_dir(root, #[trigger] g[d].manifest.dependencies[k]),
        )
    &&& forall|d: Seq<char>|
        #[trigger] g.contains_key(d) ==> d == root || required_by_graph(root, g, d)
}

/// A pending work item may stand in the queue: it is the root, or a
/// dependency directory that some already-built member declared.
pub open spec fn pend_ok(
    root: Seq<char>,
    g: Map<Seq<char>, PackageV>,
    item: (String, Option<String>),
) -> bool {
    item.0@ == root || required_by_graph(root, g, item.0@)
}

/// A dependency directory is accounted for: already built, or queued.
pub open spec fn covered(
    dd: Seq<char>,
    g: Map<Seq<char>, PackageV>,
    pend: Seq<(String, Option<String>)>,
) -> bool {
    g.contains_key(dd) || exists|i: int| 0 <= i < pend.len() && (#[trigger] pend[i]).0@ == dd
}

/// One map extends another without touching its records.
pub open spec fn graph_extends(
    g: Map<Seq<char>, PackageV>,
    oldg: Map<Seq<char>, PackageV>,
) -> bool {
    forall|d2: Seq<char>| #[trigger] oldg.contains_key(d2) ==> g.contains_key(d2) && g[d2] == oldg[d2]
}

/// Being required by the graph survives growing the graph.
proof fn lemma_required_monotone(
    root: Seq<char>,
    oldg: Map<Seq<char>, PackageV>,
    g: Map<Seq<char>, PackageV>,
    d: Seq<char>,
)
    requires
        required_by_graph(root, oldg, d),
        graph_extends(g, oldg),
    ensures
        required_by_graph(root, g, d),
{
    let (d2, k) = choose|d2: Seq<char>, k: int|
        oldg.contains_key(d2) && 0 <= k < oldg[d2].manifest.dependencies.len() && d == dep_dir(
            root,
            #[trigger] oldg[d2].manifest.dependencies[k],
        );
    assert(g.contains_key(d2) && 0 <= k < g[d2].manifest.dependencies.len() && d == dep_dir(
        root,
        g[d2].manifest.dependencies[k],
    ));
}

/// After popping a work item whose directory the grown graph holds, the
/// queue invariants survive.
proof fn lemma_after_pop(
    root: Seq<char>,
    oldg: Map<Seq<char>, PackageV>,
    g: Map<Seq<char>, PackageV>,
    oldpend: Seq<(String, Option<String>)>,
    pend: Seq<(String, Option<String>)>,
)
    requires
        oldpend.len() > 0,
        pend == oldpend.drop_last(),
        graph_extends(g, oldg),
        g.contains_key(oldpend.last().0@),
        forall|i: int| 0 <= i < oldpend.len() ==> pend_ok(root, oldg, #[trigger] oldpend[i]),
        forall|d: Seq<char>, k: int|
            oldg.contains_key(d) && 0 <= k < oldg[d].manifest.dependencies.len() ==> covered(
                dep_dir(root, #[trigger] oldg[d].manifest.dependencies[k]),
                oldg,
                oldpend,
            ),
        oldg.contains_key(root) || exists|i: int|
            0 <= i < oldpend.len() && (#[trigger] oldpend[i]).0@ == root,
    ensures
        forall|i: int| 0 <= i < pend.len() ==> pend_ok(root, g, #[trigger] pend[i]),
        forall|d: Seq<char>, k: int|
            oldg.contains_key(d) && 0 <= k < oldg[d].manifest.dependencies.len() ==> covered(
                dep_dir(root, #[trigger] oldg[d].manifest.dependencies[k]),
                g,
                pend,
            ),
        g.contains_key(root) || exists|i: int|
            0 <= i < pend.len() && (#[trigger] pend[i]).0@ == root,
{
    assert forall|i: int| 0 <= i < pend.len() implies pend_ok(root, g, #[trigger] pend[i]) by {
        assert(pend[i] == oldpend[i]);
        if oldpend[i].0@ != root {
            lemma_required_monotone(root, oldg, g, oldpend[i].0@);
        }
    }
    assert forall|d: Seq<char>, k: int|
        oldg.contains_key(d) && 0 <= k < oldg[d].manifest.dependencies.len() implies covered(
        dep_dir(root, #[trigger] oldg[d].manifest.dependencies[k]),
        g,
        pend,
    ) by {
        let dd = dep_dir(root, oldg[d].manifest.dependencies[k]);
        if !oldg.contains_key(dd) {
            let i = choose|i: int| 0 <= i < oldpend.len() && (#[trigger] oldpend[i]).0@ == dd;
            if i == oldpend.len() - 1 {
                assert(g.contains_key(dd));
            } else {
                assert(pend[i] == oldpend[i]);
            }
        }
    }
    if !oldg.contains_key(root) {
        let i = choose|i: int| 0 <= i < oldpend.len() && (#[trigger] oldpend[i]).0@ == root;
        if i == oldpend.len() - 1 {
            assert(g.contains_key(root));
        } else {
            assert(pend[i] == oldpend[i]);
        }
    }
}

/// Starting from the project root, reads each required directory's manifest
/// from the store, builds one package record per unique directory, and
/// queues the directory of every declared dependency.  A directory reached
/// more than once (a diamond dependency) is built once: directories are the
/// deduplication key.  A required directory whose manifest is absent from
/// the store is fatal: no graph is returned.
#[verifier::loop_isolation(false)]
pub fn build_package(folder: &str, manifests: &ManifestStore) -> (r: Result<
    PackageGraph,
    BuildError,
>)
    ensures
        r matches Ok(g) ==> g.wf() && graph_complete(folder@, manifests@, g@),
        r matches Err(e) ==> !manifests@.contains_key(e.dir@) && required_dir(
            folder@,
            manifests@,
            e.dir@,
        ),
{
    let mut graph: PackageGraph = AssocVec::new();
    let mut pending: Vec<(String, Option<String>)> = Vec::new();
    pending.push((folder.to_owned(), None));
    proof {
        manifests.lemma_dom_finite();
        assert((pending@[0]).0@ == folder@);
    }
    loop
        invariant
            graph.wf(),
            manifests@.dom().finite(),
            forall|d: Seq<char>|
                #[trigger] graph@.contains_key(d) ==> manifests@.contains_key(d)
                    && graph@[d].manifest == manifests@[d] && pkg_matches(d, graph@[d]),
            forall|d: Seq<char>|
                #[trigger] graph@.contains_key(d) ==> d == folder@ || required_by_graph(
                    folder@,
                    graph@,
                    d,
                ),
            forall|i: int|
                0 <= i < pending@.len() ==> pend_ok(folder@, graph@, #[trigger] pending@[i]),
            forall|d: Seq<char>, k: int|
                graph@.contains_key(d) && 0 <= k < graph@[d].manifest.dependencies.len()
                    ==> covered(
                    dep_dir(folder@, #[trigger] graph@[d].manifest.dependencies[k]),
                    graph@,
                    pending@,
                ),
            graph@.contains_key(folder@) || exists|i: int|
                0 <= i < pending@.len() && (#[trigger] pending@[i]).0@ == folder@,
        decreases manifests@.dom().difference(graph@.dom()).len(), pending@.len(),
    {
        let ghost oldpend = pending@;
        let ghost oldgraph = graph@;
        match pending.pop() {
            None => {
                proof {
                    assert forall|d: Seq<char>, k: int|
                        graph@.contains_key(d) && 0 <= k < graph@[d].manifest.dependencies.len()
                        implies graph@.contains_key(
                        dep_dir(folder@, #[trigger] graph@[d].manifest.dependencies[k]),
                    ) by {
                        assert(covered(
                            dep_dir(folder@, graph@[d].manifest.dependencies[k]),
                            graph@,
                            pending@,
                        ));
                    }
                }
                return Ok(graph);
            },
            Some((dir, parent)) => {
                if graph.contains_key(dir.as_str()) {
                    proof {
                        lemma_after_pop(folder@, oldgraph, graph@, oldpend, pending@);
                    }
                } else {
                    match manifests.get(dir.as_str()) {
                        None => {
                            proof {
                                assert(pend_ok(folder@, oldgraph, oldpend.last()));
                                if dir@ != folder@ {
                                    let (d2, k) = choose|d2: Seq<char>, k: int|
                                        oldgraph.contains_key(d2) && 0 <= k
                                            < oldgraph[d2].manifest.dependencies.len() && dir@
                                            == dep_dir(
                                            folder@,
                                            #[trigger] oldgraph[d2].manifest.dependencies[k],
                                        );
                                    assert(manifests@.contains_key(d2)
                                        && manifests@[d2].dependencies[k]
                                        == oldgraph[d2].manifest.dependencies[k]);
                                }
                            }
                            return Err(BuildError { dir });
                        },
                        Some(m) => {
                            let m2 = clone_manifest(m);
                            let dirc = dir.clone();
                            let pkg = build_package_record(dir.as_str(), parent, m2);
                            graph.insert(dir, pkg);
                            proof {
                                graph.lemma_dom_finite();
                                assert(graph@ == oldgraph.insert(dirc@, graph@[dirc@]));
                                assert(graph_extends(graph@, oldgraph));
                                assert(manifests@.dom().difference(graph@.dom())
                                    =~= manifests@.dom().difference(oldgraph.dom()).remove(dirc@));
                                assert(manifests@.dom().difference(oldgraph.dom()).contains(dirc@));
                                lemma_after_pop(folder@, oldgraph, graph@, oldpend, pending@);
                                // the new record is store-consistent and justified
                                assert(graph@[dirc@].manifest == manifests@[dirc@]);
                                assert(pkg_matches(dirc@, graph@[dirc@]));
                                if dirc@ != folder@ {
                                    lemma_required_monotone(folder@, oldgraph, graph@, dirc@);
                                }
                                assert forall|d: Seq<char>| #[trigger] graph@.contains_key(d)
                                    implies d == folder@ || required_by_graph(folder@, graph@, d) by {
                                    if d != dirc@ && d != folder@ {
                                        lemma_required_monotone(folder@, oldgraph, graph@, d);
                                    }
                                }
                            }
                            let ghost pendbase = pending@;
                            let ghost depsv = graph@[dirc@].manifest.dependencies;
                            match &m.dependencies {
                                None => {
                                    proof {
                                        assert(depsv.len() == 0);
                                        assert forall|d: Seq<char>, k: int|
                                            graph@.contains_key(d) && 0 <= k
                                                < graph@[d].manifest.dependencies.len() implies covered(
                                            dep_dir(
                                                folder@,
                                                #[trigger] graph@[d].manifest.dependencies[k],
                                            ),
                                            graph@,
                                            pending@,
                                        ) by {
                                            if d != dirc@ {
                                                assert(oldgraph.contains_key(d));
                                                assert(covered(
                                                    dep_dir(
                                                        folder@,
                                                        oldgraph[d].manifest.dependencies[k],
                                                    ),
                                                    graph@,
                                                    pending@,
                                                ));
                                            }
                                        }
                                    }
                                },
                                Some(deps) => {
                                    proof {
                                        assert(depsv =~= deps@.map_values(|x: String| x@));
                                    }
                                    let dn = deps.len();
                                    let mut j: usize = 0;
                                    while j < dn
                                        invariant
                                            dn == deps@.len(),
                                            depsv.len() == dn,
                                            j <= dn,
                                            pendbase.len() <= pending@.len(),
                                            forall|i: int|
                                                0 <= i < pendbase.len() ==> pending@[i]
                                                    == pendbase[i],
                                            forall|i: int|
                                                0 <= i < pending@.len() ==> pend_ok(
                                                    folder@,
                                                    graph@,
                                                    #[trigger] pending@[i],
                                                ),
                                            forall|k: int|
                                                0 <= k < j ==> covered(
                                                    dep_dir(folder@, #[trigger] depsv[k]),
                                                    graph@,
                                                    pending@,
                                                ),
                                        decreases dn - j,
                                    {
                                        let dd = dep_dir_of(folder, deps[j].as_str());
                                        let ghost prevpend = pending@;
                                        pending.push((dd, Some(dirc.clone())));
                                        proof {
                                            assert(pending@.drop_last() =~= prevpend);
                                            assert(pending@.last().0@ == dep_dir(
                                                folder@,
                                                depsv[j as int],
                                            ));
                                            assert(required_by_graph(
                                                folder@,
                                                graph@,
                                                dep_dir(folder@, depsv[j as int]),
                                            ));
                                            assert forall|i: int|
                                                0 <= i < pending@.len() implies pend_ok(
                                                folder@,
                                                graph@,
                                                #[trigger] pending@[i],
                                            ) by {
                                                if i < pending@.len() - 1 {
                                                    assert(pending@[i] == prevpend[i]);
                                                }
                                            }
                                            assert forall|k: int| 0 <= k < j + 1 implies covered(
                                                dep_dir(folder@, #[trigger] depsv[k]),
                                                graph@,
                                                pending@,
                                            ) by {
                                                if k < j {
                                                    assert(covered(
                                                        dep_dir(folder@, depsv[k]),
                                                        graph@,
                                                        prevpend,
                                                    ));
                                                    if !graph@.contains_key(
                                                        dep_dir(folder@, depsv[k]),
                                                    ) {
                                                        let i = choose|i: int|
                                                            0 <= i < prevpend.len() && (
                                                            #[trigger] prevpend[i]).0@ == dep_dir(
                                                                folder@,
                                                                depsv[k],
                                                            );
                                                        assert(pending@[i] == prevpend[i]);
                                                    }
                                                } else {
                                                    assert(pending@.last().0@ == dep_dir(
                                                        folder@,
                                                        depsv[k],
                                                    ));
                                                }
                                            }
                                        }
                                        j = j + 1;
                                    }
                                    proof {
                                        assert forall|d: Seq<char>, k: int|
                                            graph@.contains_key(d) && 0 <= k
                                                < graph@[d].manifest.dependencies.len() implies covered(
                                            dep_dir(
                                                folder@,
                                                #[trigger] graph@[d].manifest.dependencies[k],
                                            ),
                                            graph@,
                                            pending@,
                                        ) by {
                                            if d == dirc@ {
                                                assert(covered(
                                                    dep_dir(folder@, depsv[k]),
                                                    graph@,
                                                    pending@,
                                                ));
                                            } else {
                                                assert(oldgraph.contains_key(d));
                                                assert(covered(
                                                    dep_dir(
                                                        folder@,
                                                        oldgraph[d].manifest.dependencies[k],
                                                    ),
                                                    graph@,
                                                    pendbase,
                                                ));
                                                if !graph@.contains_key(
                                                    dep_dir(
                                                        folder@,
                                                        oldgraph[d].manifest.dependencies[k],
                                                    ),
                                                ) {
                                                    let i = choose|i: int|
                                                        0 <= i < pendbase.len() && (
                                                        #[trigger] pendbase[i]).0@ == dep_dir(
                                                            folder@,
                                                            oldgraph[d].manifest.dependencies[k],
                                                        );
                                                    assert(pending@[i] == pendbase[i]);
                                                }
                                            }
                                        }
                                    }
                                },
                            }
                        },
                    }
                }
            },
        }
    }
}


/// The source files of an enriched package (empty before enrichment).
pub open spec fn files_of(p: PackageV) -> Map<Seq<char>, FileMeta> {
    match p.contents {
        ContentsV::Resolved { source_files, .. } => source_files,
        ContentsV::Unresolved => Map::<Seq<char>, FileMeta>::empty(),
    }
}

/// The module identifiers of an enriched package (empty before enrichment).
pub open spec fn modules_of(p: PackageV) -> Set<Seq<char>> {
    match p.contents {
        ContentsV::Resolved { modules, .. } => modules,
        ContentsV::Unresolved => Set::<Seq<char>>::empty(),
    }
}

/// The set a namespace contributes to the module set: the identifier itself
/// when one is present.
pub open spec fn ns_set(ns: Option<Seq<char>>) -> Set<Seq<char>> {
    match ns {
        Option::Some(n) => set![n],
        Option::None => Set::<Seq<char>>::empty(),
    }
}

/// A package correctly enriched against the lister's answers: its contents
/// are resolved; a path is among its source files exactly when some resolved
/// folder contributes it, with that folder's metadata; and its module set is
/// exactly the derived name of every source file, plus the namespace
/// identifier itself when one is present.
pub open spec fn pkg_enriched(
    p: PackageV,
    ls: Map<Seq<char>, Option<Map<Seq<char>, FileMeta>>>,
) -> bool {
    &&& p.contents is Resolved
    &&& forall|path: Seq<char>|
        #[trigger] files_of(p).contains_key(path) ==> exists|f: (Seq<char>, FolderSpecV)|
            #[trigger] p.source_folders.contains(f) && collect_spec(f.0, f.1, ls).contains_key(
                path,
            ) && collect_spec(f.0, f.1, ls)[path] == files_of(p)[path]
    &&& forall|f: (Seq<char>, FolderSpecV), path: Seq<char>|
        p.source_folders.contains(f) && #[trigger] collect_spec(f.0, f.1, ls).contains_key(path)
            ==> files_of(p).contains_key(path)
    &&& modules_of(p) == derived_modules(files_of(p), p.namespace)
}

/// The module set that a file map and an optional namespace give rise to:
/// the derived name of every file path, plus the namespace itself.
pub open spec fn derived_modules(
    files: Map<Seq<char>, FileMeta>,
    ns: Option<Seq<char>>,
) -> Set<Seq<char>> {
    files.dom().map(|path: Seq<char>| module_name_spec(path, ns)).union(ns_set(ns))
}

/// Enrichment changes nothing of a package but its contents.
pub open spec fn base_preserved(p2: PackageV, p1: PackageV) -> bool {
    &&& p2.name == p1.name
    &&& p2.parent == p1.parent
    &&& p2.manifest == p1.manifest
    &&& p2.source_folders == p1.source_folders
    &&& p2.namespace == p1.namespace
}


/// Merges one folder's collected files into the running map: a later folder
/// wins a shared path.
fn merge_files(files: &mut FileMap, m: &FileMap)
    ensures
        final(files)@ == old(files)@.union_prefer_right(m@),
{
    let mn = m.len();
    let mut j: usize = 0;
    while j < mn
        invariant
            mn == m.entry_count(),
            j <= mn,
            files@ == old(files)@.union_prefer_right(
                crate::assoc::entries_map(m.entry_seq().take(j as int)),
            ),
        decreases mn - j,
    {
        let e2 = m.entry_at(j);
        files.insert(e2.0.clone(), e2.1);
        proof {
            assert(m.entry_seq().take(j + 1).drop_last() =~= m.entry_seq().take(j as int));
            assert(files@ =~= old(files)@.union_prefer_right(
                crate::assoc::entries_map(m.entry_seq().take(j + 1)),
            ));
        }
        j = j + 1;
    }
    proof {
        assert(m.entry_seq().take(mn as int) =~= m.entry_seq());
        m.lemma_view_is_entries();
    }
}

/// What the collection loop guarantees for a prefix of the folder entries:
/// a path is collected exactly when some folder so far contributes it, with
/// that folder's metadata.
pub open spec fn collected_upto(
    files: Map<Seq<char>, FileMeta>,
    fsq: Seq<(Seq<char>, FolderSpecV)>,
    i: int,
    ls: Map<Seq<char>, Option<Map<Seq<char>, FileMeta>>>,
) -> bool {
    &&& forall|path: Seq<char>|
        #[trigger] files.contains_key(path) ==> exists|k: int|
            0 <= k < i && #[trigger] collect_spec(fsq[k].0, fsq[k].1, ls).contains_key(path)
                && collect_spec(fsq[k].0, fsq[k].1, ls)[path] == files[path]
    &&& forall|k: int, path: Seq<char>|
        0 <= k < i && #[trigger] collect_spec(fsq[k].0, fsq[k].1, ls).contains_key(path)
            ==> files.contains_key(path)
}

/// Collects and merges the files of every resolved folder of a package, and
/// records the directory of each folder that was to be read but had no
/// readable listing.
#[verifier::loop_isolation(false)]
fn collect_all(folders: &FolderSet, listings: &DirListings) -> (r: (FileMap, Vec<String>))
    ensures
        collected_upto(r.0@, folders.folder_seq(), folders.folder_seq().len() as int, listings@),
{
    let ghost fsq = folders.folder_seq();
    let ghost ls = listings@;
    let mut files: FileMap = AssocVec::new();
    let mut warns: Vec<String> = Vec::new();
    let n = folders.count();
    let mut i: usize = 0;
    while i < n
        invariant
            n == fsq.len(),
            i <= n,
            collected_upto(files@, fsq, i as int, ls),
        decreases n - i,
    {
        let e = folders.entry_at(i);
        let (m, w) = get_source_files(&e.0, &e.1, listings);
        let ghost fbase = files@;
        merge_files(&mut files, &m);
        if w {
            warns.push(e.0.clone());
        }
        proof {
            let csi = collect_spec(fsq[i as int].0, fsq[i as int].1, ls);
            assert(files@ == fbase.union_prefer_right(csi));
            assert forall|path: Seq<char>| #[trigger] files@.contains_key(path) implies exists|
                k: int,
            |
                0 <= k < i + 1 && #[trigger] collect_spec(fsq[k].0, fsq[k].1, ls).contains_key(
                    path,
                ) && collect_spec(fsq[k].0, fsq[k].1, ls)[path] == files@[path] by {
                if csi.contains_key(path) {
                    assert(collect_spec(fsq[i as int].0, fsq[i as int].1, ls).contains_key(path)
                        && collect_spec(fsq[i as int].0, fsq[i as int].1, ls)[path]
                        == files@[path]);
                } else {
                    let k = choose|k: int|
                        0 <= k < i && #[trigger] collect_spec(fsq[k].0, fsq[k].1, ls).contains_key(
                            path,
                        ) && collect_spec(fsq[k].0, fsq[k].1, ls)[path] == fbase[path];
                    assert(collect_spec(fsq[k].0, fsq[k].1, ls).contains_key(path)
                        && collect_spec(fsq[k].0, fsq[k].1, ls)[path] == files@[path]);
                }
            }
        }
        i = i + 1;
    }
    (files, warns)
}

/// Derives the module identifier of every collected file, plus the namespace
/// identifier itself when one is present.
#[verifier::loop_isolation(false)]
fn derive_module_set(files: &FileMap, namespace: &Option<String>) -> (r: ModuleSet)
    ensures
        r@ == derived_modules(files@, crate::naming::opt_str_view(namespace)),
{
    let ghost pns = crate::naming::opt_str_view(namespace);
    let mut mods = ModuleSet::new();
    match namespace {
        Some(nsid) => {
            mods.add(nsid.clone());
        },
        None => {},
    }
    proof {
        assert(mods@ =~= ns_set(pns));
    }
    let kn = files.len();
    let mut jj: usize = 0;
    while jj < kn
        invariant
            kn == files.entry_count(),
            jj <= kn,
            mods@ == ns_set(pns).union(
                files.entry_seq().take(jj as int).map_values(
                    |e: (String, FileMeta)| module_name_spec(e.0@, pns),
                ).to_set(),
            ),
        decreases kn - jj,
    {
        let fe = files.entry_at(jj);
        let nm = file_path_to_module_name(fe.0.as_str(), namespace);
        mods.add(nm);
        proof {
            let mapped = files.entry_seq().take(jj as int).map_values(
                |e: (String, FileMeta)| module_name_spec(e.0@, pns),
            );
            assert(files.entry_seq().take(jj + 1).map_values(
                |e: (String, FileMeta)| module_name_spec(e.0@, pns),
            ) =~= mapped.push(module_name_spec(files.entry_seq()[jj as int].0@, pns)));
            mapped.lemma_push_to_set_commute(
                module_name_spec(files.entry_seq()[jj as int].0@, pns),
            );
            assert(mods@ =~= ns_set(pns).union(
                files.entry_seq().take(jj + 1).map_values(
                    |e: (String, FileMeta)| module_name_spec(e.0@, pns),
                ).to_set(),
            ));
        }
        jj = jj + 1;
    }
    proof {
        assert(files.entry_seq().take(kn as int) =~= files.entry_seq());
        files.lemma_dom_finite();
        let keys = files.entry_seq().map_values(|e: (String, FileMeta)| e.0@);
        let namefn = |path: Seq<char>| module_name_spec(path, pns);
        keys.lemma_to_set_map_commutes(namefn);
        assert(keys.map_values(namefn) =~= files.entry_seq().map_values(
            |e: (String, FileMeta)| module_name_spec(e.0@, pns),
        ));
        assert(mods@ =~= derived_modules(files@, pns));
    }
    mods
}

/// Fills in one package: collects the files of each resolved folder, merges
/// them (a later folder wins a shared path), derives the module identifier
/// of every file, and records the directory of every folder that was to be
/// read but had no readable listing.
#[verifier::loop_isolation(false)]
fn enrich_package(pkg: Package, listings: &DirListings) -> (r: (Package, Vec<String>))
    ensures
        base_preserved(r.0@, pkg@),
        pkg_enriched(r.0@, listings@),
{
    let ghost fsq = pkg.source_folders.folder_seq();
    let ghost ls = listings@;
    let ghost n = fsq.len() as int;
    let (files, warns) = collect_all(&pkg.source_folders, listings);
    let mods = derive_module_set(&files, &pkg.namespace);
    let p2 = Package {
        name: pkg.name,
        parent: pkg.parent,
        manifest: pkg.manifest,
        source_folders: pkg.source_folders,
        contents: PackageContents::Resolved { source_files: files, modules: mods },
        namespace: pkg.namespace,
    };
    proof {
        assert forall|path: Seq<char>| #[trigger] files_of(p2@).contains_key(path) implies exists|
            f: (Seq<char>, FolderSpecV),
        |
            #[trigger] p2@.source_folders.contains(f) && collect_spec(f.0, f.1, ls).contains_key(
                path,
            ) && collect_spec(f.0, f.1, ls)[path] == files_of(p2@)[path] by {
            let k = choose|k: int|
                0 <= k < n && #[trigger] collect_spec(fsq[k].0, fsq[k].1, ls).contains_key(path)
                    && collect_spec(fsq[k].0, fsq[k].1, ls)[path] == files_of(p2@)[path];
            assert(fsq.contains(fsq[k]));
            assert(p2@.source_folders.contains(fsq[k]));
        }
        assert forall|f: (Seq<char>, FolderSpecV), path: Seq<char>|
            p2@.source_folders.contains(f) && #[trigger] collect_spec(f.0, f.1, ls).contains_key(
                path,
            ) implies files_of(p2@).contains_key(path) by {
            p2.source_folders.lemma_member_has_entry(f);
            let k = choose|k: int| 0 <= k < fsq.len() && fsq[k] == f;
            assert(collect_spec(fsq[k].0, fsq[k].1, ls).contains_key(path));
        }
    }
    (p2, warns)
}


/// Two maps hold the same directories.
pub open spec fn same_dirs(g2: Map<Seq<char>, PackageV>, g1: Map<Seq<char>, PackageV>) -> bool {
    forall|d: Seq<char>| g2.contains_key(d) <==> #[trigger] g1.contains_key(d)
}

/// Takes the tree of packages and finds all the source files for each,
/// adding them - and the derived module identifiers - to the respective
/// packages.  The second result lists the directories of folders that were
/// to be read but had no readable listing.
#[verifier::loop_isolation(false)]
pub fn extend_with_children(build: PackageGraph, listings: &DirListings) -> (r: (
    PackageGraph,
    Vec<String>,
))
    requires
        build.wf(),
    ensures
        r.0.wf(),
        same_dirs(r.0@, build@),
        forall|d: Seq<char>|
            #[trigger] r.0@.contains_key(d) ==> base_preserved(r.0@[d], build@[d]) && pkg_enriched(
                r.0@[d],
                listings@,
            ),
{
    let ghost os = build.entry_seq();
    let ghost bmap = build@;
    let ghost n0 = os.len() as int;
    proof {
        build.lemma_view_is_entries();
    }
    let mut entries = build.into_entries();
    let mut out: PackageGraph = AssocVec::new();
    let mut warns: Vec<String> = Vec::new();
    loop
        invariant
            entries@ == os.take(entries@.len() as int),
            entries@.len() <= n0,
            out.wf(),
            forall|i: int, j: int| 0 <= i < j < n0 ==> (#[trigger] os[i]).0@ != (#[trigger] os[j]).0@,
            forall|d: Seq<char>|
                #[trigger] out@.contains_key(d) ==> exists|jj: int|
                    entries@.len() <= jj < n0 && (#[trigger] os[jj]).0@ == d,
            forall|jj: int|
                entries@.len() <= jj < n0 ==> out@.contains_key((#[trigger] os[jj]).0@)
                    && base_preserved(out@[os[jj].0@], os[jj].1@) && pkg_enriched(
                    out@[os[jj].0@],
                    listings@,
                ),
        decreases entries@.len(),
    {
        let ghost preout = out@;
        match entries.pop() {
            None => {
                proof {
                    crate::assoc::lemma_entries_map_dom(os);
                    assert forall|d: Seq<char>| bmap.contains_key(d) implies #[trigger] out@.contains_key(d) by {
                        crate::assoc::lemma_entries_map_key(os, d);
                    }
                    assert forall|d: Seq<char>| #[trigger] out@.contains_key(d) implies bmap.contains_key(d)
                        && base_preserved(out@[d], bmap[d]) && pkg_enriched(out@[d], listings@) by {
                        let jj = choose|jj: int| 0 <= jj < n0 && (#[trigger] os[jj]).0@ == d;
                        assert forall|j2: int| jj < j2 < n0 implies (#[trigger] os[j2]).0@ != os[jj].0@ by {}
                        crate::assoc::lemma_entries_map_at(os, jj);
                        assert(bmap[d] == os[jj].1@);
                    }
                }
                return (out, warns);
            },
            Some((dir, pkg)) => {
                let ghost len2 = entries@.len() as int;
                proof {
                    assert(os.take(len2 + 1).drop_last() =~= os.take(len2));
                    assert((dir, pkg) == os[len2]);
                }
                let (p2, mut w2) = enrich_package(pkg, listings);
                proof {
                    if out@.contains_key(dir@) {
                        let jj = choose|jj: int| len2 + 1 <= jj < n0 && (#[trigger] os[jj]).0@ == dir@;
                        assert(false);
                    }
                }
                out.insert(dir, p2);
                warns.append(&mut w2);
                proof {
                    assert forall|d: Seq<char>| #[trigger] out@.contains_key(d) implies exists|jj: int|
                        len2 <= jj < n0 && (#[trigger] os[jj]).0@ == d by {
                        if d != os[len2].0@ {
                            assert(preout.contains_key(d));
                            let jj = choose|jj: int| len2 + 1 <= jj < n0 && (#[trigger] os[jj]).0@ == d;
                            assert(len2 <= jj < n0 && os[jj].0@ == d);
                        } else {
                            assert(len2 <= len2 < n0 && os[len2].0@ == d);
                        }
                    }
                    assert forall|jj: int| len2 <= jj < n0 implies out@.contains_key((#[trigger] os[jj]).0@)
                        && base_preserved(out@[os[jj].0@], os[jj].1@) && pkg_enriched(
                        out@[os[jj].0@],
                        listings@,
                    ) by {
                        if jj > len2 {
                            assert(os[jj].0@ != os[len2].0@);
                            assert(out@[os[jj].0@] == preout[os[jj].0@]);
                        }
                    }
                }
            },
        }
    }
}

/// Whether a finished, enriched graph is what `make` promises over a
/// manifest store and the lister's answers: one record per unique directory;
/// the root present; every record shaped by its own stored manifest; every
/// declared dependency present; and every record enriched.
pub open spec fn make_complete(
    root: Seq<char>,
    store: Map<Seq<char>, ManifestV>,
    ls: Map<Seq<char>, Option<Map<Seq<char>, FileMeta>>>,
    g: Map<Seq<char>, PackageV>,
) -> bool {
    exists|g1: Map<Seq<char>, PackageV>|
        #[trigger] graph_complete(root, store, g1) && same_dirs(g, g1) && (forall|d: Seq<char>|
            #[trigger] g.contains_key(d) ==> base_preserved(g[d], g1[d]) && pkg_enriched(g[d], ls))
}

/// Turns a project root into the finished tree of packages, in two steps:
/// first every manifest is read and the deduplicated package records are
/// built, then the (by then deduplicated) packages have their source files
/// and module identifiers filled in.  A missing manifest for a required
/// directory is fatal; an unreadable source folder only yields a warning,
/// returned beside the graph.
pub fn make(folder: &str, manifests: &ManifestStore, listings: &DirListings) -> (r: Result<
    (PackageGraph, Vec<String>),
    BuildError,
>)
    ensures
        r matches Ok(gw) ==> gw.0.wf() && make_complete(folder@, manifests@, listings@, gw.0@),
        r matches Err(e) ==> !manifests@.contains_key(e.dir@) && required_dir(
            folder@,
            manifests@,
            e.dir@,
        ),
{
    match build_package(folder, manifests) {
        Err(e) => Err(e),
        Ok(g) => {
            let ghost g1 = g@;
            let (g2, warns) = extend_with_children(g, listings);
            proof {
                assert(graph_complete(folder@, manifests@, g1) && same_dirs(g2@, g1) && (forall|
                    d: Seq<char>,
                |
                    #[trigger] g2@.contains_key(d) ==> base_preserved(g2@[d], g1[d])
                        && pkg_enriched(g2@[d], listings@)));
            }
            Ok((g2, warns))
        },
    }
}

/// Each package directory - in particular the shared dependency of a
/// dependency diamond - has exactly one record in a well-formed graph: the
/// record count equals the number of distinct directories.
pub proof fn lemma_unique_package_per_dir(g: &PackageGraph)
    requires
        g.wf(),
    ensures
        g@.dom().len() == g.entry_count(),
{
    g.lemma_wf_dom_len();
}

/// A package whose namespace is set has the namespace identifier itself as a
/// member of its module set after enrichment.
pub proof fn lemma_namespace_in_modules(
    p: PackageV,
    ls: Map<Seq<char>, Option<Map<Seq<char>, FileMeta>>>,
)
    requires
        pkg_enriched(p, ls),
        p.namespace is Some,
    ensures
        modules_of(p).contains(p.namespace->0),
{
    assert(ns_set(p.namespace).contains(p.namespace->0));
}

} // verus!
