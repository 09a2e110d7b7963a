//! Expansion of one declared source specification into the flat set of
//! (absolute directory, normalized specification) pairs, recursively
//! unfolding explicit subdirectory lists.

use vstd::prelude::*;
use crate::manifest::{SourceKind, SourceSpec, SourceSpecV, Subdirs, SubdirsV};
use crate::manifest::lemma_specs_view_index;
use crate::strutil::{join, path_join, str_eq};

verus! {

broadcast use vstd::set::group_set_axioms;

/// A normalized source specification: its nested subdirectory declarations
/// are stripped, since those are expanded into separate entries; only the
/// full-recursion flag and the kind tag remain beside the declared directory.
#[derive(Debug)]
pub struct FolderSpec {
    pub dir: String,
    pub recurse: bool,
    pub kind: SourceKind,
}

/// Mathematical form of a normalized source specification.
pub ghost struct FolderSpecV {
    pub dir: Seq<char>,
    pub recurse: bool,
    pub kind: SourceKind,
}

impl View for FolderSpec {
    type V = FolderSpecV;

    open spec fn view(&self) -> FolderSpecV {
        FolderSpecV { dir: self.dir@, recurse: self.recurse, kind: self.kind }
    }
}

/// Whether a declaration asks for full filesystem recursion.
pub open spec fn full_recursive(s: SourceSpecV) -> bool {
    s.subdirs == SubdirsV::Recurse(true)
}

/// The normalized form of a declaration: children stripped, the
/// full-recursion flag preserved.
pub open spec fn normalized_of(s: SourceSpecV) -> FolderSpecV {
    FolderSpecV { dir: s.dir, recurse: full_recursive(s), kind: s.kind }
}

/// The set of (absolute directory, normalized specification) pairs that one
/// declaration resolves to under a base directory: its own entry, plus,
/// unless it asks for full recursion, the entries of each explicitly
/// declared child one level down.
pub open spec fn resolve_spec(base: Seq<char>, s: SourceSpecV) -> Set<(Seq<char>, FolderSpecV)>
    decreases s,
{
    let full = join(base, s.dir);
    let me = (full, normalized_of(s));
    match s.subdirs {
        SubdirsV::Explicit(cs) => set![me].union(resolve_list(full, cs)),
        _ => set![me],
    }
}

/// Union of the resolutions of a list of child declarations.
pub open spec fn resolve_list(base: Seq<char>, cs: Seq<SourceSpecV>) -> Set<
    (Seq<char>, FolderSpecV),
>
    decreases cs,
{
    if cs.len() == 0 {
        Set::<(Seq<char>, FolderSpecV)>::empty()
    } else {
        resolve_list(base, cs.drop_last()).union(resolve_spec(base, cs.last()))
    }
}

/// Every resolved entry set is finite.
pub proof fn lemma_resolve_finite(base: Seq<char>, s: SourceSpecV)
    ensures
        resolve_spec(base, s).finite(),
    decreases s,
{
    match s.subdirs {
        SubdirsV::Explicit(cs) => {
            lemma_resolve_list_finite(join(base, s.dir), cs);
        },
        _ => {},
    }
}

/// The union of a child list's resolutions is finite.
pub proof fn lemma_resolve_list_finite(base: Seq<char>, cs: Seq<SourceSpecV>)
    ensures
        resolve_list(base, cs).finite(),
    decreases cs,
{
    if cs.len() > 0 {
        lemma_resolve_list_finite(base, cs.drop_last());
        lemma_resolve_finite(base, cs.last());
    }
}

/// Every entry a declaration resolves to lies strictly below the base: its
/// absolute directory is a longer path than the base.
pub proof fn lemma_resolve_deeper(base: Seq<char>, s: SourceSpecV)
    ensures
        forall|e: (Seq<char>, FolderSpecV)|
            #[trigger] resolve_spec(base, s).contains(e) ==> e.0.len() > base.len(),
    decreases s,
{
    reveal_strlit("/");
    let full = join(base, s.dir);
    assert(full.len() == base.len() + 1 + s.dir.len());
    match s.subdirs {
        SubdirsV::Explicit(cs) => {
            lemma_resolve_list_deeper(full, cs);
            assert forall|e: (Seq<char>, FolderSpecV)| #[trigger] resolve_spec(base, s).contains(
                e,
            ) implies e.0.len() > base.len() by {
                if e != (full, normalized_of(s)) {
                    assert(resolve_list(full, cs).contains(e));
                }
            }
        },
        _ => {
            assert forall|e: (Seq<char>, FolderSpecV)| #[trigger] resolve_spec(base, s).contains(
                e,
            ) implies e.0.len() > base.len() by {
                assert(e == (full, normalized_of(s)));
            }
        },
    }
}

/// Entries of a child list's resolutions lie strictly below the base.
pub proof fn lemma_resolve_list_deeper(base: Seq<char>, cs: Seq<SourceSpecV>)
    ensures
        forall|e: (Seq<char>, FolderSpecV)|
            #[trigger] resolve_list(base, cs).contains(e) ==> e.0.len() > base.len(),
    decreases cs,
{
    if cs.len() > 0 {
        lemma_resolve_list_deeper(base, cs.drop_last());
        lemma_resolve_deeper(base, cs.last());
        assert forall|e: (Seq<char>, FolderSpecV)| #[trigger] resolve_list(base, cs).contains(
            e,
        ) implies e.0.len() > base.len() by {
            if resolve_list(base, cs.drop_last()).contains(e) {
            } else {
                assert(resolve_spec(base, cs.last()).contains(e));
            }
        }
    }
}

/// Each member of a child list's union comes from some child.
proof fn lemma_resolve_list_member(base: Seq<char>, cs: Seq<SourceSpecV>, e: (Seq<char>, FolderSpecV))
    requires
        resolve_list(base, cs).contains(e),
    ensures
        exists|i: int| 0 <= i < cs.len() && #[trigger] resolve_spec(base, cs[i]).contains(e),
    decreases cs,
{
    if cs.len() > 0 {
        if resolve_spec(base, cs.last()).contains(e) {
            assert(resolve_spec(base, cs[cs.len() - 1]).contains(e));
        } else {
            lemma_resolve_list_member(base, cs.drop_last(), e);
            let i = choose|i: int|
                0 <= i < cs.drop_last().len() && #[trigger] resolve_spec(
                    base,
                    cs.drop_last()[i],
                ).contains(e);
            assert(resolve_spec(base, cs[i]).contains(e));
        }
    }
}

/// Two disjoint finite sets union to one of summed size.
proof fn lemma_disjoint_union_len<A>(a: Set<A>, b: Set<A>)
    requires
        a.finite(),
        b.finite(),
        a.disjoint(b),
    ensures
        a.union(b).len() == a.len() + b.len(),
    decreases a.len(),
{
    if a.len() == 0 {
        assert(a.union(b) =~= b);
    } else {
        let x = a.choose();
        assert(a.contains(x));
        assert(a.union(b).remove(x) =~= a.remove(x).union(b));
        lemma_disjoint_union_len(a.remove(x), b);
        assert(!b.contains(x));
        assert(a.union(b).contains(x));
    }
}

/// Combined size of the resolutions of a list of children.
pub open spec fn resolve_count(base: Seq<char>, cs: Seq<SourceSpecV>) -> nat
    decreases cs,
{
    if cs.len() == 0 {
        0
    } else {
        resolve_count(base, cs.drop_last()) + resolve_spec(base, cs.last()).len()
    }
}

/// When the children's resolutions are pairwise disjoint, their union holds
/// exactly the sum of their sizes.
proof fn lemma_resolve_list_count(base: Seq<char>, cs: Seq<SourceSpecV>)
    requires
        forall|i: int, j: int|
            0 <= i < j < cs.len() ==> (#[trigger] resolve_spec(base, cs[i])).disjoint(
                #[trigger] resolve_spec(base, cs[j]),
            ),
    ensures
        resolve_list(base, cs).len() == resolve_count(base, cs),
    decreases cs,
{
    if cs.len() > 0 {
        let dl = cs.drop_last();
        assert forall|i: int, j: int| 0 <= i < j < dl.len() implies (#[trigger] resolve_spec(
            base,
            dl[i],
        )).disjoint(#[trigger] resolve_spec(base, dl[j])) by {
            assert(dl[i] == cs[i] && dl[j] == cs[j]);
        }
        lemma_resolve_list_count(base, dl);
        lemma_resolve_list_finite(base, dl);
        lemma_resolve_finite(base, cs.last());
        assert forall|e: (Seq<char>, FolderSpecV)| #[trigger] resolve_list(base, dl).contains(e)
            implies !resolve_spec(base, cs.last()).contains(e) by {
            lemma_resolve_list_member(base, dl, e);
            let i = choose|i: int|
                0 <= i < dl.len() && #[trigger] resolve_spec(base, dl[i]).contains(e);
            assert(dl[i] == cs[i]);
            assert(resolve_spec(base, cs[i]).disjoint(resolve_spec(base, cs[cs.len() - 1])));
        }
        lemma_disjoint_union_len(resolve_list(base, dl), resolve_spec(base, cs.last()));
    }
}

/// For every source spec declaring full recursion, resolution yields exactly
/// one (directory, normalized spec) entry, and the normalized spec's
/// recursion flag stays full-recursion.
pub proof fn lemma_resolve_full_recursion(base: Seq<char>, s: SourceSpecV)
    requires
        full_recursive(s),
    ensures
        resolve_spec(base, s) == set![(join(base, s.dir), normalized_of(s))],
        resolve_spec(base, s).len() == 1,
        normalized_of(s).recurse,
{
    assert(set![(join(base, s.dir), normalized_of(s))].len() == 1);
}

/// For every source spec declaring an explicit subdirectory list whose
/// children resolve to pairwise disjoint entry sets, resolution yields the
/// declaration's own entry plus each child's recursively resolved entries:
/// one more than the children's combined count, with no duplicate pairs.
pub proof fn lemma_resolve_explicit(base: Seq<char>, s: SourceSpecV, cs: Seq<SourceSpecV>)
    requires
        s.subdirs == SubdirsV::Explicit(cs),
        forall|i: int, j: int|
            0 <= i < j < cs.len() ==> (#[trigger] resolve_spec(join(base, s.dir), cs[i])).disjoint(
                #[trigger] resolve_spec(join(base, s.dir), cs[j]),
            ),
    ensures
        resolve_spec(base, s).len() == 1 + resolve_count(join(base, s.dir), cs),
{
    reveal_strlit("/");
    let full = join(base, s.dir);
    let me = (full, normalized_of(s));
    lemma_resolve_list_count(full, cs);
    lemma_resolve_list_finite(full, cs);
    lemma_resolve_list_deeper(full, cs);
    assert forall|e: (Seq<char>, FolderSpecV)| #[trigger] set![me].contains(e) implies
        !resolve_list(full, cs).contains(e) by {
        assert(e == me);
        assert(me.0.len() == full.len());
    }
    assert(set![me].len() == 1);
    lemma_disjoint_union_len(set![me], resolve_list(full, cs));
}

/// A set of (absolute directory, normalized specification) pairs, backed by
/// a duplicate-free vector.
pub struct FolderSet {
    entries: Vec<(String, FolderSpec)>,
}

/// The views of a folder entry sequence.
pub open spec fn folder_views(s: Seq<(String, FolderSpec)>) -> Seq<(Seq<char>, FolderSpecV)> {
    s.map_values(|e: (String, FolderSpec)| (e.0@, e.1@))
}

impl FolderSet {
    /// The entry views, in insertion order.
    pub closed spec fn folder_seq(&self) -> Seq<(Seq<char>, FolderSpecV)> {
        folder_views(self.entries@)
    }

    /// No entry repeats.
    pub open spec fn wf(&self) -> bool {
        forall|i: int, j: int|
            0 <= i < j < self.folder_seq().len() ==> self.folder_seq()[i] != self.folder_seq()[j]
    }

    pub open spec fn view(&self) -> Set<(Seq<char>, FolderSpecV)> {
        self.folder_seq().to_set()
    }

    pub fn new() -> (r: FolderSet)
        ensures
            r.wf(),
            r@ == Set::<(Seq<char>, FolderSpecV)>::empty(),
            r.folder_seq() == Seq::<(Seq<char>, FolderSpecV)>::empty(),
    {
        let r = FolderSet { entries: Vec::new() };
        proof {
            assert(r@ =~= Set::<(Seq<char>, FolderSpecV)>::empty());
            assert(r.folder_seq() =~= Seq::<(Seq<char>, FolderSpecV)>::empty());
        }
        r
    }

    /// Whether the pair is already held.
    pub fn contains(&self, path: &str, spec: &FolderSpec) -> (r: bool)
        ensures
            r == self@.contains((path@, spec@)),
    {
        let n = self.entries.len();
        let mut i: usize = 0;
        while i < n
            invariant
                n == self.entries@.len(),
                i <= n,
                forall|k: int| 0 <= k < i ==> self.folder_seq()[k] != (path@, spec@),
            decreases n - i,
        {
            let e = &self.entries[i];
            if str_eq(e.0.as_str(), path) && str_eq(e.1.dir.as_str(), spec.dir.as_str())
                && e.1.recurse == spec.recurse && e.1.kind == spec.kind {
                proof {
                    assert(self.folder_seq()[i as int] == (path@, spec@));
                }
                return true;
            }
            i = i + 1;
        }
        proof {
            if self@.contains((path@, spec@)) {
                let k = choose|k: int|
                    0 <= k < self.folder_seq().len() && self.folder_seq()[k] == (path@, spec@);
                assert(false);
            }
        }
        false
    }

    /// Adds a pair unless it is already held.
    pub fn add(&mut self, path: String, spec: FolderSpec)
        ensures
            final(self)@ == old(self)@.insert((path@, spec@)),
            old(self).wf() ==> final(self).wf(),
    {
        let present = self.contains(path.as_str(), &spec);
        if !present {
            let ghost olds = self.entries@;
            self.entries.push((path, spec));
            proof {
                let e = (self.entries@.last().0@, self.entries@.last().1@);
                assert(self.folder_seq() =~= folder_views(olds).push(e));
                folder_views(olds).lemma_push_to_set_commute(e);
                assert(self@ =~= old(self)@.insert(e));
            }
        } else {
            proof {
                assert(self@ =~= old(self)@.insert((path@, spec@)));
            }
        }
    }

    /// Unions another folder set into this one.
    pub fn extend(&mut self, other: FolderSet)
        ensures
            final(self)@ == old(self)@.union(other@),
            old(self).wf() ==> final(self).wf(),
    {
        let n = other.entries.len();
        let mut i: usize = 0;
        while i < n
            invariant
                n == other.entries@.len(),
                i <= n,
                self@ == old(self)@.union(other.folder_seq().take(i as int).to_set()),
                old(self).wf() ==> self.wf(),
            decreases n - i,
        {
            let e = &other.entries[i];
            let path = e.0.clone();
            let spec = FolderSpec { dir: e.1.dir.clone(), recurse: e.1.recurse, kind: e.1.kind };
            proof {
                assert((path@, spec@) == other.folder_seq()[i as int]);
            }
            self.add(path, spec);
            proof {
                assert(other.folder_seq().take(i + 1) =~= other.folder_seq().take(i as int).push(
                    other.folder_seq()[i as int],
                ));
                other.folder_seq().take(i as int).lemma_push_to_set_commute(
                    other.folder_seq()[i as int],
                );
                assert(self@ =~= old(self)@.union(other.folder_seq().take(i + 1).to_set()));
            }
            i = i + 1;
        }
        proof {
            assert(other.folder_seq().take(n as int) =~= other.folder_seq());
            assert(self@ =~= old(self)@.union(other@));
        }
    }

    /// Number of entries; without repeats this is the size of the set.
    pub fn count(&self) -> (n: usize)
        ensures
            n == self.folder_seq().len(),
            self.wf() ==> n == self@.len(),
    {
        proof {
            if self.wf() {
                assert(self.folder_seq().no_duplicates());
                self.folder_seq().unique_seq_to_set();
            }
        }
        self.entries.len()
    }

    /// The entry at an index.
    pub fn entry_at(&self, i: usize) -> (r: &(String, FolderSpec))
        requires
            i < self.folder_seq().len(),
        ensures
            (r.0@, r.1@) == self.folder_seq()[i as int],
            self@.contains((r.0@, r.1@)),
    {
        proof {
            assert(self.folder_seq()[i as int] == (self.entries@[i as int].0@,
            self.entries@[i as int].1@));
        }
        &self.entries[i]
    }

    /// Every member of the set is some entry.
    pub proof fn lemma_member_has_entry(&self, e: (Seq<char>, FolderSpecV))
        requires
            self@.contains(e),
        ensures
            exists|i: int| 0 <= i < self.folder_seq().len() && self.folder_seq()[i] == e,
    {
    }
}

/// Expands one declared source specification under a project root into the
/// flat set of (absolute directory, normalized specification) pairs: one
/// entry for the declaration itself, and, unless it asks for full recursion,
/// the recursively resolved entries of each explicitly declared child.
#[verifier::loop_isolation(false)]
pub fn get_source_dirs(project_root: &str, source: &SourceSpec) -> (r: FolderSet)
    ensures
        r.wf(),
        r@ == resolve_spec(project_root@, source@),
    decreases *source,
{
    let mut acc = FolderSet::new();
    let full = path_join(project_root, source.dir.as_str());
    let recurse: bool = match &source.subdirs {
        Subdirs::Recurse(b) => *b,
        _ => false,
    };
    let norm = FolderSpec { dir: source.dir.clone(), recurse, kind: source.kind };
    proof {
        assert(norm@ == normalized_of(source@));
    }
    match &source.subdirs {
        Subdirs::Explicit(subs) => {
            acc.add(full.clone(), norm);
            let ghost fullv = join(project_root@, source@.dir);
            let ghost cs = crate::manifest::specs_view(subs@);
            proof {
                crate::manifest::lemma_specs_view_len(subs@);
            }
            let n = subs.len();
            let mut i: usize = 0;
            while i < n
                invariant
                    n == subs@.len(),
                    cs == crate::manifest::specs_view(subs@),
                    cs.len() == n,
                    i <= n,
                    full@ == fullv,
                    acc.wf(),
                    acc@ == set![(fullv, normalized_of(source@))].union(
                        resolve_list(fullv, cs.take(i as int)),
                    ),
                    forall|k: int| 0 <= k < n ==> #[trigger] cs[k] == subs@[k]@,
                decreases n - i,
            {
                proof {
                    lemma_specs_view_index(subs@, i as int);
                    let ghost sd = (*source).subdirs;
                    assert(sd is Explicit);
                    assert(sd->Explicit_0 == *subs);
                    assert(decreases_to!(*source => sd));
                    assert(decreases_to!(sd => sd->Explicit_0));
                    assert(decreases_to!(*subs => subs@));
                    assert(decreases_to!(subs@ => subs@[i as int]));
                    assert(decreases_to!(*source => subs@[i as int]));
                }
                let child = get_source_dirs(full.as_str(), &subs[i]);
                acc.extend(child);
                proof {
                    assert(cs.take(i + 1).drop_last() =~= cs.take(i as int));
                    assert(cs.take(i + 1).last() == cs[i as int]);
                    assert(resolve_list(fullv, cs.take(i + 1)) == resolve_list(
                        fullv,
                        cs.take(i as int),
                    ).union(resolve_spec(fullv, cs[i as int])));
                    assert(acc@ =~= set![(fullv, normalized_of(source@))].union(
                        resolve_list(fullv, cs.take(i + 1)),
                    ));
                }
                i = i + 1;
            }
            proof {
                assert(cs.take(n as int) =~= cs);
                assert(acc@ =~= resolve_spec(project_root@, source@));
            }
        },
        _ => {
            acc.add(full, norm);
            proof {
                assert(acc@ =~= resolve_spec(project_root@, source@));
            }
        },
    }
    acc
}

} // verus!
