//! The structured manifest value that the external manifest reader produces,
//! and a store of manifests keyed by package directory.

use vstd::prelude::*;

verus! {

/// The kind tag of a declared source directory: ordinary sources, or
/// development-only sources that are excluded at collection time.
#[derive(Clone, Copy, PartialEq, Eq, Structural, Debug)]
pub enum SourceKind {
    Ordinary,
    Dev,
}

/// The subdirectory policy of a declared source directory: none declared,
/// full filesystem recursion (with its flag), or an explicit list of nested
/// declarations.
#[derive(Debug)]
pub enum Subdirs {
    Absent,
    Recurse(bool),
    Explicit(Vec<SourceSpec>),
}

/// One declared source directory: a directory path relative to its parent,
/// a subdirectory policy, and a kind tag.
#[derive(Debug)]
pub struct SourceSpec {
    pub dir: String,
    pub subdirs: Subdirs,
    pub kind: SourceKind,
}

/// Mathematical form of a subdirectory policy.
pub ghost enum SubdirsV {
    Absent,
    Recurse(bool),
    Explicit(Seq<SourceSpecV>),
}

/// Mathematical form of a declared source directory.
pub ghost struct SourceSpecV {
    pub dir: Seq<char>,
    pub subdirs: SubdirsV,
    pub kind: SourceKind,
}

/// View of a sequence of source declarations, element by element.
pub open spec fn specs_view(v: Seq<SourceSpec>) -> Seq<SourceSpecV>
    decreases v,
{
    if v.len() == 0 {
        Seq::<SourceSpecV>::empty()
    } else {
        specs_view(v.drop_last()).push(spec_of_source(v.last()))
    }
}

/// View of one source declaration.
pub open spec fn spec_of_source(s: SourceSpec) -> SourceSpecV
    decreases s,
{
    SourceSpecV { dir: s.dir@, subdirs: subdirs_view(s.subdirs), kind: s.kind }
}

/// View of a subdirectory policy.
pub open spec fn subdirs_view(sd: Subdirs) -> SubdirsV
    decreases sd,
{
    match sd {
        Subdirs::Absent => SubdirsV::Absent,
        Subdirs::Recurse(b) => SubdirsV::Recurse(b),
        Subdirs::Explicit(v) => SubdirsV::Explicit(specs_view(v@)),
    }
}

impl View for SourceSpec {
    type V = SourceSpecV;

    open spec fn view(&self) -> SourceSpecV {
        spec_of_source(*self)
    }
}

pub proof fn lemma_specs_view_len(v: Seq<SourceSpec>)
    ensures
        specs_view(v).len() == v.len(),
        forall|i: int| 0 <= i < v.len() ==> specs_view(v)[i] == spec_of_source(#[trigger] v[i]),
    decreases v,
{
    if v.len() > 0 {
        lemma_specs_view_len(v.drop_last());
        assert forall|i: int| 0 <= i < v.len() implies specs_view(v)[i] == spec_of_source(
            #[trigger] v[i],
        ) by {
            if i < v.len() - 1 {
                assert(v.drop_last()[i] == v[i]);
                assert(specs_view(v)[i] == specs_view(v.drop_last())[i]);
            } else {
                assert(v[i] == v.last());
            }
        }
    }
}

/// Each element of `specs_view` is the view of the matching declaration.
pub broadcast proof fn lemma_specs_view_index(v: Seq<SourceSpec>, i: int)
    requires
        0 <= i < v.len(),
    ensures
        #[trigger] specs_view(v)[i] == spec_of_source(v[i]),
        specs_view(v).len() == v.len(),
{
    lemma_specs_view_len(v);
}

/// The namespace setting of a manifest: a boolean flag, or an explicit text
/// (where the text `true` counts as the boolean flag set).
#[derive(Debug)]
pub enum NamespaceDecl {
    Flag(bool),
    Text(String),
}

/// Mathematical form of a namespace setting.
pub ghost enum NamespaceDeclV {
    Flag(bool),
    Text(Seq<char>),
}

impl View for NamespaceDecl {
    type V = NamespaceDeclV;

    open spec fn view(&self) -> NamespaceDeclV {
        match self {
            NamespaceDecl::Flag(b) => NamespaceDeclV::Flag(*b),
            NamespaceDecl::Text(t) => NamespaceDeclV::Text(t@),
        }
    }
}

/// The declared sources of a manifest: one declaration or several.
#[derive(Debug)]
pub enum Sources {
    Single(SourceSpec),
    Multiple(Vec<SourceSpec>),
}

impl View for Sources {
    type V = Seq<SourceSpecV>;

    open spec fn view(&self) -> Seq<SourceSpecV> {
        match self {
            Sources::Single(s) => seq![s@],
            Sources::Multiple(v) => specs_view(v@),
        }
    }
}

/// A package's parsed configuration, as the external manifest reader hands
/// it over: package name, optional namespace setting, declared sources, and
/// an optional list of dependency package names.
#[derive(Debug)]
pub struct Manifest {
    pub name: String,
    pub namespace: Option<NamespaceDecl>,
    pub sources: Sources,
    pub dependencies: Option<Vec<String>>,
}

/// Mathematical form of a manifest.
pub ghost struct ManifestV {
    pub name: Seq<char>,
    pub namespace: Option<NamespaceDeclV>,
    pub sources: Seq<SourceSpecV>,
    pub dependencies: Seq<Seq<char>>,
}

impl View for Manifest {
    type V = ManifestV;

    open spec fn view(&self) -> ManifestV {
        ManifestV {
            name: self.name@,
            namespace: match self.namespace {
                Option::None => Option::None,
                Option::Some(d) => Option::Some(d@),
            },
            sources: self.sources@,
            dependencies: match self.dependencies {
                Option::None => Seq::<Seq<char>>::empty(),
                Option::Some(v) => v@.map_values(|x: String| x@),
            },
        }
    }
}

/// A store of manifests keyed by absolute package directory: the batch form
/// of the external manifest reader's answers.
pub type ManifestStore = crate::assoc::AssocVec<Manifest>;

} // verus!
