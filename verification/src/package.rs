//! The Package record: one node per unique package directory, created during
//! graph discovery with its contents unresolved, and filled in exactly once
//! by the enrichment pass.

use vstd::prelude::*;
use crate::files::{FileMap, FileMeta};
use crate::manifest::{
    lemma_specs_view_index,
    lemma_specs_view_len,
    Manifest,
    ManifestV,
    NamespaceDecl,
    NamespaceDeclV,
    Sources,
    SourceSpec,
    Subdirs,
};
use crate::naming::{namespace_from_package_name, namespace_of_name};
use crate::source_dirs::{get_source_dirs, resolve_list, resolve_spec, FolderSet};
use crate::strutil::str_eq;

verus! {

broadcast use vstd::set::group_set_axioms;

/// A set of derived module identifiers, backed by a duplicate-free vector.
pub struct ModuleSet {
    items: Vec<String>,
}

impl ModuleSet {
    /// The member views, in insertion order.
    pub closed spec fn item_seq(&self) -> Seq<Seq<char>> {
        self.items@.map_values(|s: String| s@)
    }

    /// No member repeats.
    pub open spec fn wf(&self) -> bool {
        forall|i: int, j: int|
            0 <= i < j < self.item_seq().len() ==> self.item_seq()[i] != self.item_seq()[j]
    }

    pub closed spec fn view(&self) -> Set<Seq<char>> {
        self.item_seq().to_set()
    }

    pub fn new() -> (r: ModuleSet)
        ensures
            r.wf(),
            r@ == Set::<Seq<char>>::empty(),
    {
        let r = ModuleSet { items: Vec::new() };
        proof {
            assert(r@ =~= Set::<Seq<char>>::empty());
        }
        r
    }

    /// Whether the identifier is a member.
    pub fn contains(&self, name: &str) -> (r: bool)
        ensures
            r == self@.contains(name@),
    {
        let n = self.items.len();
        let mut i: usize = 0;
        while i < n
            invariant
                n == self.items@.len(),
                i <= n,
                forall|k: int| 0 <= k < i ==> self.item_seq()[k] != name@,
            decreases n - i,
        {
            if str_eq(self.items[i].as_str(), name) {
                proof {
                    assert(self.item_seq()[i as int] == name@);
                }
                return true;
            }
            i = i + 1;
        }
        proof {
            if self@.contains(name@) {
                let k = choose|k: int|
                    0 <= k < self.item_seq().len() && self.item_seq()[k] == name@;
                assert(false);
            }
        }
        false
    }

    /// Adds an identifier unless it is already a member.
    pub fn add(&mut self, name: String)
        ensures
            final(self)@ == old(self)@.insert(name@),
            old(self).wf() ==> final(self).wf(),
    {
        let present = self.contains(name.as_str());
        if !present {
            let ghost olds = self.items@;
            self.items.push(name);
            proof {
                let e = self.items@.last()@;
                assert(self.item_seq() =~= olds.map_values(|s: String| s@).push(e));
                olds.map_values(|s: String| s@).lemma_push_to_set_commute(e);
                assert(self@ =~= old(self)@.insert(e));
            }
        } else {
            proof {
                assert(self@ =~= old(self)@.insert(name@));
            }
        }
    }

    /// Number of members; without repeats this is the size of the set.
    pub fn count(&self) -> (n: usize)
        ensures
            n == self.item_seq().len(),
            self.wf() ==> n == self@.len(),
    {
        proof {
            if self.wf() {
                assert(self.item_seq().no_duplicates());
                self.item_seq().unique_seq_to_set();
            }
        }
        self.items.len()
    }
}

/// The contents filled in by the enrichment pass: absent until it runs, then
/// the package's source files and derived module identifiers together.
pub enum PackageContents {
    Unresolved,
    Resolved { source_files: FileMap, modules: ModuleSet },
}

/// Mathematical form of the enrichment contents.
pub ghost enum ContentsV {
    Unresolved,
    Resolved { source_files: Map<Seq<char>, FileMeta>, modules: Set<Seq<char>> },
}

impl View for PackageContents {
    type V = ContentsV;

    open spec fn view(&self) -> ContentsV {
        match self {
            PackageContents::Unresolved => ContentsV::Unresolved,
            PackageContents::Resolved { source_files, modules } => ContentsV::Resolved {
                source_files: source_files@,
                modules: modules@,
            },
        }
    }
}

/// One package: its declared name, the directory of the package that first
/// discovered it (provenance only), its own manifest, its resolved source
/// folders, its enrichment contents, and its optional namespace identifier.
pub struct Package {
    pub name: String,
    pub parent: Option<String>,
    pub manifest: Manifest,
    pub source_folders: FolderSet,
    pub contents: PackageContents,
    pub namespace: Option<String>,
}

/// Mathematical form of a package.
pub ghost struct PackageV {
    pub name: Seq<char>,
    pub parent: Option<Seq<char>>,
    pub manifest: ManifestV,
    pub source_folders: Set<(Seq<char>, crate::source_dirs::FolderSpecV)>,
    pub contents: ContentsV,
    pub namespace: Option<Seq<char>>,
}

impl View for Package {
    type V = PackageV;

    open spec fn view(&self) -> PackageV {
        PackageV {
            name: self.name@,
            parent: match self.parent {
                Option::None => Option::None,
                Option::Some(ref p) => Option::Some(p@),
            },
            manifest: self.manifest@,
            source_folders: self.source_folders@,
            contents: self.contents@,
            namespace: match self.namespace {
                Option::None => Option::None,
                Option::Some(ref n) => Option::Some(n@),
            },
        }
    }
}

/// The namespace a manifest asks for: none when unset or switched off, the
/// identifier derived from the package name when the flag is true (or the
/// text is exactly `true`), and the given text itself otherwise.
pub open spec fn namespace_of_manifest(m: ManifestV) -> Option<Seq<char>> {
    match m.namespace {
        Option::None => Option::None,
        Option::Some(NamespaceDeclV::Flag(b)) => if b {
            Option::Some(namespace_of_name(m.name))
        } else {
            Option::None
        },
        Option::Some(NamespaceDeclV::Text(t)) => if t == "true"@ {
            Option::Some(namespace_of_name(m.name))
        } else {
            Option::Some(t)
        },
    }
}

/// The package record that graph discovery creates for a directory from its
/// manifest: folders resolved, namespace derived, contents still unresolved.
pub open spec fn package_of(dir: Seq<char>, parent: Option<Seq<char>>, m: ManifestV) -> PackageV {
    PackageV {
        name: m.name,
        parent,
        manifest: m,
        source_folders: resolve_list(dir, m.sources),
        contents: ContentsV::Unresolved,
        namespace: namespace_of_manifest(m),
    }
}

/// Derives the optional namespace identifier that a manifest asks for.
fn namespace_of(manifest: &Manifest) -> (r: Option<String>)
    ensures
        (match r {
            Option::None => Option::<Seq<char>>::None,
            Option::Some(ref n) => Option::Some(n@),
        }) == namespace_of_manifest(manifest@),
{
    match &manifest.namespace {
        None => None,
        Some(NamespaceDecl::Flag(b)) => {
            if *b {
                Some(namespace_from_package_name(manifest.name.as_str()))
            } else {
                None
            }
        },
        Some(NamespaceDecl::Text(t)) => {
            if str_eq(t.as_str(), "true") {
                Some(namespace_from_package_name(manifest.name.as_str()))
            } else {
                Some(t.clone())
            }
        },
    }
}

/// Resolves every declared source of a manifest under the package directory
/// and unions the results.
fn resolve_all_sources(package_dir: &str, manifest: &Manifest) -> (r: FolderSet)
    ensures
        r.wf(),
        r@ == resolve_list(package_dir@, manifest@.sources),
{
    match &manifest.sources {
        Sources::Single(s) => {
            let r = get_source_dirs(package_dir, s);
            proof {
                let sv = seq![s@];
                assert(sv.drop_last() =~= Seq::<crate::manifest::SourceSpecV>::empty());
                assert(sv.last() == s@);
                assert(resolve_list(package_dir@, sv.drop_last())
                    == Set::<(Seq<char>, crate::source_dirs::FolderSpecV)>::empty());
                assert(resolve_list(package_dir@, sv) =~= resolve_spec(package_dir@, s@));
            }
            r
        },
        Sources::Multiple(v) => {
            let ghost cs = crate::manifest::specs_view(v@);
            proof {
                lemma_specs_view_len(v@);
            }
            let mut acc = FolderSet::new();
            let n = v.len();
            let mut i: usize = 0;
            while i < n
                invariant
                    n == v@.len(),
                    cs == crate::manifest::specs_view(v@),
                    cs.len() == n,
                    i <= n,
                    acc.wf(),
                    acc@ == resolve_list(package_dir@, cs.take(i as int)),
                    forall|k: int| 0 <= k < n ==> #[trigger] cs[k] == v@[k]@,
                decreases n - i,
            {
                proof {
                    lemma_specs_view_index(v@, i as int);
                }
                let child = get_source_dirs(package_dir, &v[i]);
                acc.extend(child);
                proof {
                    assert(cs.take(i + 1).drop_last() =~= cs.take(i as int));
                    assert(cs.take(i + 1).last() == cs[i as int]);
                    assert(acc@ =~= resolve_list(package_dir@, cs.take(i + 1)));
                }
                i = i + 1;
            }
            proof {
                assert(cs.take(n as int) =~= cs);
            }
            acc
        },
    }
}

/// Builds the package record for a directory from its manifest: resolves all
/// declared sources, derives the namespace, and leaves the contents
/// unresolved for the enrichment pass.
pub fn build_package_record(package_dir: &str, parent: Option<String>, manifest: Manifest) -> (p:
    Package)
    ensures
        p@ == package_of(
            package_dir@,
            match parent {
                Option::None => Option::<Seq<char>>::None,
                Option::Some(ref q) => Option::Some(q@),
            },
            manifest@,
        ),
        p.source_folders.wf(),
{
    let source_folders = resolve_all_sources(package_dir, &manifest);
    let namespace = namespace_of(&manifest);
    let name = manifest.name.clone();
    Package {
        name,
        parent,
        manifest,
        source_folders,
        contents: PackageContents::Unresolved,
        namespace,
    }
}

} // verus!
