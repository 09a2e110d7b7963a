//! Collection of source files for one resolved directory: the decisions
//! around the external directory lister's answers.  Development-only
//! directories are skipped outright; an unreadable directory yields an empty
//! result and a warning, never an abort.

use vstd::prelude::*;
use crate::assoc::AssocVec;
use crate::manifest::SourceKind;
use crate::source_dirs::{FolderSpec, FolderSpecV};

verus! {

/// Metadata of one source file, as the external directory lister reports it.
#[derive(Clone, Copy, PartialEq, Eq, Structural, Debug)]
pub struct FileMeta {
    pub size: u64,
    pub modified: u64,
}

impl View for FileMeta {
    type V = FileMeta;

    open spec fn view(&self) -> FileMeta {
        *self
    }
}

/// Map from absolute file path to its metadata.
pub type FileMap = AssocVec<FileMeta>;

/// What the external directory lister answered for one directory: the files
/// beneath it, or that it could not be read.
pub enum ListingOutcome {
    Unreadable,
    Files(FileMap),
}

impl View for ListingOutcome {
    type V = Option<Map<Seq<char>, FileMeta>>;

    open spec fn view(&self) -> Option<Map<Seq<char>, FileMeta>> {
        match self {
            ListingOutcome::Unreadable => Option::None,
            ListingOutcome::Files(m) => Option::Some(m@),
        }
    }
}

/// The external directory lister's answers, keyed by the listed directory.
pub type DirListings = AssocVec<ListingOutcome>;

/// The files one resolved folder contributes: none for a development-only
/// folder or an unlisted/unreadable directory, otherwise the directory's
/// listing.
pub open spec fn collect_spec(
    dir: Seq<char>,
    f: FolderSpecV,
    ls: Map<Seq<char>, Option<Map<Seq<char>, FileMeta>>>,
) -> Map<Seq<char>, FileMeta> {
    if f.kind == SourceKind::Dev {
        Map::<Seq<char>, FileMeta>::empty()
    } else if ls.contains_key(dir) && ls[dir] is Some {
        ls[dir]->0
    } else {
        Map::<Seq<char>, FileMeta>::empty()
    }
}

/// Whether reading this folder deserves a warning: it is not development-only
/// and its directory has no readable listing.
pub open spec fn collect_warn(
    dir: Seq<char>,
    f: FolderSpecV,
    ls: Map<Seq<char>, Option<Map<Seq<char>, FileMeta>>>,
) -> bool {
    f.kind != SourceKind::Dev && !(ls.contains_key(dir) && ls[dir] is Some)
}

/// A copy of a file map.
fn dup_file_map(m: &FileMap) -> (r: FileMap)
    ensures
        r@ == m@,
        r.entry_seq() == m.entry_seq(),
{
    let n = m.len();
    let mut r: FileMap = AssocVec::new();
    let mut i: usize = 0;
    while i < n
        invariant
            n == m.entry_count(),
            i <= n,
            r.entry_seq() == m.entry_seq().take(i as int),
        decreases n - i,
    {
        let e = m.entry_at(i);
        r.insert(e.0.clone(), e.1);
        proof {
            assert(r.entry_seq() =~= m.entry_seq().take(i + 1));
        }
        i = i + 1;
    }
    proof {
        assert(m.entry_seq().take(n as int) =~= m.entry_seq());
        r.lemma_view_from_entries(m);
    }
    r
}

/// Collects the source files of one resolved directory: a development-only
/// directory is skipped outright; otherwise the directory's listing is
/// taken, and an unlisted or unreadable directory contributes nothing.  The
/// second result says whether the directory deserves a warning: it was to be
/// read but had no readable listing.
pub fn get_source_files(dir: &String, source: &FolderSpec, listings: &DirListings) -> (r: (
    FileMap,
    bool,
))
    ensures
        r.0@ == collect_spec(dir@, source@, listings@),
        r.1 == collect_warn(dir@, source@, listings@),
{
    let is_dev = match source.kind {
        SourceKind::Dev => true,
        SourceKind::Ordinary => false,
    };
    if is_dev {
        let r: FileMap = AssocVec::new();
        return (r, false);
    }
    match listings.get(dir.as_str()) {
        Some(outcome) => match outcome {
            ListingOutcome::Files(m) => (dup_file_map(m), false),
            ListingOutcome::Unreadable => {
                let r: FileMap = AssocVec::new();
                (r, true)
            },
        },
        None => {
            let r: FileMap = AssocVec::new();
            (r, true)
        },
    }
}

} // verus!
