//! Naming rules: deriving a namespace identifier from a package name, and a
//! module identifier from a file path plus an optional namespace prefix.

use vstd::prelude::*;

verus! {

/// ASCII decimal digit, upper-case letter or lower-case letter.
pub open spec fn is_alnum_char(c: char) -> bool {
    (48 <= c as u32 && c as u32 <= 57) || is_upper_char(c) || is_lower_char(c)
}

pub open spec fn is_lower_char(c: char) -> bool {
    97 <= c as u32 && c as u32 <= 122
}

pub open spec fn is_upper_char(c: char) -> bool {
    65 <= c as u32 && c as u32 <= 90
}

/// Maps a lower-case ASCII letter to its upper-case form; leaves every other
/// character unchanged.
pub open spec fn upper_char(c: char) -> char {
    if is_lower_char(c) {
        (((c as u32) - 32) as u32) as char
    } else {
        c
    }
}

/// Maps an upper-case ASCII letter to its lower-case form; leaves every other
/// character unchanged.
pub open spec fn lower_char(c: char) -> char {
    if is_upper_char(c) {
        (((c as u32) + 32) as u32) as char
    } else {
        c
    }
}

/// A new capitalised segment starts at position `i`: the character is
/// alphanumeric and either stands at the front, follows a delimiter
/// (a non-alphanumeric character), or sits on a lower-to-upper case
/// transition.
pub open spec fn seg_start(s: Seq<char>, i: int) -> bool {
    is_alnum_char(s[i]) && (i == 0 || !is_alnum_char(s[i - 1]) || (is_lower_char(s[i - 1])
        && is_upper_char(s[i])))
}

/// What position `i` contributes to the Pascal-cased form: delimiters are
/// dropped, a segment's first character is upper-cased, the rest are
/// lower-cased.
pub open spec fn pascal_emit(s: Seq<char>, i: int) -> Seq<char> {
    if !is_alnum_char(s[i]) {
        Seq::<char>::empty()
    } else if seg_start(s, i) {
        seq![upper_char(s[i])]
    } else {
        seq![lower_char(s[i])]
    }
}

/// Pascal-cased form of the first `n` characters of `s`.
pub open spec fn pascal_prefix(s: Seq<char>, n: int) -> Seq<char>
    decreases n,
{
    if n <= 0 {
        Seq::<char>::empty()
    } else {
        pascal_prefix(s, n - 1) + pascal_emit(s, n - 1)
    }
}

/// Capitalised-word-boundary casing: split on non-alphanumeric boundaries and
/// lower-to-upper case transitions, capitalise each segment, drop the
/// delimiters, and concatenate.
pub open spec fn pascal_of(s: Seq<char>) -> Seq<char> {
    pascal_prefix(s, s.len() as int)
}

/// What position `i` contributes to the scrubbed form of a package name:
/// `@` is dropped and `/` becomes `_`.
pub open spec fn scrub_emit(c: char) -> Seq<char> {
    if c == '@' {
        Seq::<char>::empty()
    } else if c == '/' {
        seq!['_']
    } else {
        seq![c]
    }
}

/// Scrubbed form of the first `n` characters of `s`.
pub open spec fn scrub_prefix(s: Seq<char>, n: int) -> Seq<char>
    decreases n,
{
    if n <= 0 {
        Seq::<char>::empty()
    } else {
        scrub_prefix(s, n - 1) + scrub_emit(s[n - 1])
    }
}

/// Package name with every `@` stripped and every `/` replaced by `_`.
pub open spec fn scrub_of(s: Seq<char>) -> Seq<char> {
    scrub_prefix(s, s.len() as int)
}

/// The namespace identifier derived from a package name: scrub, then
/// Pascal-case.
pub open spec fn namespace_of_name(s: Seq<char>) -> Seq<char> {
    pascal_of(scrub_of(s))
}

/// Index of the last occurrence of `c` in the first `n` characters of `s`,
/// or `-1` if it does not occur there.
pub open spec fn last_pos(s: Seq<char>, c: char, n: int) -> int
    decreases n,
{
    if n <= 0 {
        -1
    } else if s[n - 1] == c {
        n - 1
    } else {
        last_pos(s, c, n - 1)
    }
}

/// The characters of a path after its last `/` (the whole path when it has
/// none).
pub open spec fn basename_of(p: Seq<char>) -> Seq<char> {
    p.subrange(last_pos(p, '/', p.len() as int) + 1, p.len() as int)
}

/// The basename of a path with its last `.`-extension removed (unchanged when
/// the basename has no `.`).
pub open spec fn stem_of(p: Seq<char>) -> Seq<char> {
    let b = basename_of(p);
    let d = last_pos(b, '.', b.len() as int);
    if d == -1 {
        b
    } else {
        b.subrange(0, d)
    }
}

/// First character upper-cased, the rest unchanged.
pub open spec fn cap_first(t: Seq<char>) -> Seq<char> {
    if t.len() == 0 {
        t
    } else {
        seq![upper_char(t[0])] + t.subrange(1, t.len() as int)
    }
}

/// The module identifier derived from a file path and an optional namespace:
/// the capitalised file stem, suffixed with `-` and the namespace when one is
/// present.
pub open spec fn module_name_spec(p: Seq<char>, ns: Option<Seq<char>>) -> Seq<char> {
    match ns {
        Option::None => cap_first(stem_of(p)),
        Option::Some(n) => cap_first(stem_of(p)) + seq!['-'] + n,
    }
}

/// The view of an optional namespace string.
pub open spec fn opt_str_view(o: &Option<String>) -> Option<Seq<char>> {
    match o {
        Option::None => Option::None,
        Option::Some(n) => Option::Some(n@),
    }
}

fn is_alnum(c: char) -> (b: bool)
    ensures
        b == is_alnum_char(c),
{
    let v: u32 = c as u32;
    (48 <= v && v <= 57) || (65 <= v && v <= 90) || (97 <= v && v <= 122)
}

fn is_lower(c: char) -> (b: bool)
    ensures
        b == is_lower_char(c),
{
    let v: u32 = c as u32;
    97 <= v && v <= 122
}

fn is_upper(c: char) -> (b: bool)
    ensures
        b == is_upper_char(c),
{
    let v: u32 = c as u32;
    65 <= v && v <= 90
}

fn to_upper(c: char) -> (r: char)
    ensures
        r == upper_char(c),
{
    let v: u32 = c as u32;
    if 97 <= v && v <= 122 {
        ((v - 32) as u8) as char
    } else {
        c
    }
}

fn to_lower(c: char) -> (r: char)
    ensures
        r == lower_char(c),
{
    let v: u32 = c as u32;
    if 65 <= v && v <= 90 {
        ((v + 32) as u8) as char
    } else {
        c
    }
}

/// Relies on `String::push`: appends the given character to the end of the
/// string.
#[verifier::external_body]
pub(crate) fn push_char(s: &mut String, c: char)
    ensures
        final(s)@ == old(s)@.push(c),
{
    s.push(c)
}

/// Derives the namespace identifier for a package name: strip `@`, replace
/// `/` with `_`, and convert to capitalised-word-boundary casing.
pub fn namespace_from_package_name(package_name: &str) -> (r: String)
    ensures
        r@ == namespace_of_name(package_name@),
{
    let n: usize = package_name.unicode_len();
    let mut scrubbed: String = String::new();
    let mut i: usize = 0;
    while i < n
        invariant
            n == package_name@.len(),
            i <= n,
            scrubbed@ == scrub_prefix(package_name@, i as int),
        decreases n - i,
    {
        let c = package_name.get_char(i);
        if c == '@' {
        } else if c == '/' {
            push_char(&mut scrubbed, '_');
        } else {
            push_char(&mut scrubbed, c);
        }
        proof {
            assert(scrub_prefix(package_name@, i + 1) == scrub_prefix(package_name@, i as int)
                + scrub_emit(package_name@[i as int]));
        }
        i = i + 1;
    }
    let s = scrubbed.as_str();
    let m: usize = s.unicode_len();
    let mut out: String = String::new();
    let mut j: usize = 0;
    while j < m
        invariant
            m == s@.len(),
            s@ == scrub_of(package_name@),
            j <= m,
            out@ == pascal_prefix(s@, j as int),
        decreases m - j,
    {
        let c = s.get_char(j);
        if is_alnum(c) {
            let starts: bool = if j == 0 {
                true
            } else {
                let p = s.get_char(j - 1);
                !is_alnum(p) || (is_lower(p) && is_upper(c))
            };
            if starts {
                push_char(&mut out, to_upper(c));
            } else {
                push_char(&mut out, to_lower(c));
            }
        }
        proof {
            assert(pascal_prefix(s@, j + 1) == pascal_prefix(s@, j as int) + pascal_emit(
                s@,
                j as int,
            ));
            assert(out@ =~= pascal_prefix(s@, j + 1));
        }
        j = j + 1;
    }
    out
}

/// Index of the last occurrence of `c` in `s`, as an exec search.
fn find_last(s: &str, c: char) -> (r: Option<usize>)
    ensures
        r is None ==> last_pos(s@, c, s@.len() as int) == -1,
        r matches Some(p) ==> last_pos(s@, c, s@.len() as int) == p as int && (p as int)
            < s@.len(),
{
    let n: usize = s.unicode_len();
    let mut best: Option<usize> = None;
    let mut i: usize = 0;
    while i < n
        invariant
            n == s@.len(),
            i <= n,
            best is None ==> last_pos(s@, c, i as int) == -1,
            best matches Some(p) ==> last_pos(s@, c, i as int) == p as int && p < i,
        decreases n - i,
    {
        if s.get_char(i) == c {
            best = Some(i);
        }
        i = i + 1;
    }
    best
}

/// Derives the module identifier for a source file path: take the path's
/// basename, strip its extension, capitalise the first character, and, when a
/// namespace is present, append `-` and the namespace identifier.
pub fn file_path_to_module_name(path: &str, namespace: &Option<String>) -> (r: String)
    ensures
        r@ == module_name_spec(path@, opt_str_view(namespace)),
{
    let n: usize = path.unicode_len();
    let bstart: usize = match find_last(path, '/') {
        None => 0,
        Some(p) => p + 1,
    };
    let base = path.substring_char(bstart, n);
    assert(base@ == basename_of(path@));
    let m: usize = base.unicode_len();
    let stem = match find_last(base, '.') {
        None => base,
        Some(d) => base.substring_char(0, d),
    };
    proof {
        assert(basename_of(path@).subrange(0, basename_of(path@).len() as int) =~= basename_of(
            path@,
        ));
        assert(stem@ == stem_of(path@));
    }
    let mut out: String = String::new();
    let k: usize = stem.unicode_len();
    if k > 0 {
        push_char(&mut out, to_upper(stem.get_char(0)));
        out.append(stem.substring_char(1, k));
    }
    assert(out@ =~= cap_first(stem_of(path@)));
    match namespace {
        None => {},
        Some(ns) => {
            push_char(&mut out, '-');
            out.append(ns.as_str());
        },
    }
    proof {
        if namespace is Some {
            assert(out@ =~= module_name_spec(path@, opt_str_view(namespace)));
        }
    }
    out
}

/// An identifier already in derived-namespace shape: non-empty, alphanumeric
/// throughout, starting with an upper-case letter, and with every further
/// upper-case letter sitting right after a lower-case one.
pub open spec fn namespace_shaped(s: Seq<char>) -> bool {
    &&& s.len() > 0
    &&& is_upper_char(s[0])
    &&& forall|i: int| 0 <= i < s.len() ==> is_alnum_char(#[trigger] s[i])
    &&& forall|i: int|
        1 <= i < s.len() && is_upper_char(#[trigger] s[i]) ==> is_lower_char(s[i - 1])
}

proof fn lemma_scrub_alnum_id(s: Seq<char>, n: int)
    requires
        0 <= n <= s.len(),
        forall|i: int| 0 <= i < s.len() ==> is_alnum_char(#[trigger] s[i]),
    ensures
        scrub_prefix(s, n) == s.subrange(0, n),
    decreases n,
{
    if n > 0 {
        lemma_scrub_alnum_id(s, n - 1);
        assert(scrub_emit(s[n - 1]) == seq![s[n - 1]]);
        assert(s.subrange(0, n) =~= s.subrange(0, n - 1) + seq![s[n - 1]]);
    } else {
        assert(scrub_prefix(s, n) =~= s.subrange(0, 0));
    }
}

proof fn lemma_pascal_shaped_id(s: Seq<char>, n: int)
    requires
        namespace_shaped(s),
        0 <= n <= s.len(),
    ensures
        pascal_prefix(s, n) == s.subrange(0, n),
    decreases n,
{
    if n > 0 {
        lemma_pascal_shaped_id(s, n - 1);
        if seg_start(s, n - 1) {
            assert(upper_char(s[n - 1]) == s[n - 1]);
        } else {
            assert(!is_upper_char(s[n - 1]));
            assert(lower_char(s[n - 1]) == s[n - 1]);
        }
        assert(s.subrange(0, n) =~= s.subrange(0, n - 1) + seq![s[n - 1]]);
    } else {
        assert(pascal_prefix(s, n) =~= s.subrange(0, 0));
    }
}

/// Namespace derivation is the identity on identifiers that already have the
/// derived shape: deriving a namespace from an already-derived name changes
/// nothing.
pub proof fn lemma_namespace_idempotent(s: Seq<char>)
    requires
        namespace_shaped(s),
    ensures
        namespace_of_name(s) == s,
        namespace_of_name(namespace_of_name(s)) == namespace_of_name(s),
{
    lemma_scrub_alnum_id(s, s.len() as int);
    assert(s.subrange(0, s.len() as int) =~= s);
    lemma_pascal_shaped_id(s, s.len() as int);
}

proof fn lemma_scrub_keeps_alnum(s: Seq<char>, n: int)
    requires
        0 <= n <= s.len(),
        exists|i: int| 0 <= i < n && is_alnum_char(#[trigger] s[i]),
    ensures
        exists|j: int|
            0 <= j < scrub_prefix(s, n).len() && is_alnum_char(#[trigger] scrub_prefix(s, n)[j]),
    decreases n,
{
    if is_alnum_char(s[n - 1]) {
        assert(scrub_emit(s[n - 1]) == seq![s[n - 1]]);
        let t = scrub_prefix(s, n);
        assert(is_alnum_char(t[t.len() - 1]));
    } else {
        let i = choose|i: int| 0 <= i < n && is_alnum_char(#[trigger] s[i]);
        assert(0 <= i < n - 1);
        lemma_scrub_keeps_alnum(s, n - 1);
        let j = choose|j: int|
            0 <= j < scrub_prefix(s, n - 1).len() && is_alnum_char(
                #[trigger] scrub_prefix(s, n - 1)[j],
            );
        assert(is_alnum_char(scrub_prefix(s, n)[j]));
    }
}

proof fn lemma_case_maps_alnum(c: char)
    requires
        is_alnum_char(c),
    ensures
        is_alnum_char(upper_char(c)),
        is_alnum_char(lower_char(c)),
{
}

proof fn lemma_pascal_alnum(s: Seq<char>, n: int)
    requires
        0 <= n <= s.len(),
    ensures
        forall|j: int|
            0 <= j < pascal_prefix(s, n).len() ==> is_alnum_char(#[trigger] pascal_prefix(s, n)[j]),
    decreases n,
{
    if n > 0 {
        lemma_pascal_alnum(s, n - 1);
        if is_alnum_char(s[n - 1]) {
            lemma_case_maps_alnum(s[n - 1]);
        }
        assert forall|j: int| 0 <= j < pascal_prefix(s, n).len() implies is_alnum_char(
            #[trigger] pascal_prefix(s, n)[j],
        ) by {
            if j < pascal_prefix(s, n - 1).len() {
                assert(pascal_prefix(s, n)[j] == pascal_prefix(s, n - 1)[j]);
            }
        }
    }
}

proof fn lemma_pascal_nonempty(s: Seq<char>, n: int)
    requires
        0 <= n <= s.len(),
        exists|i: int| 0 <= i < n && is_alnum_char(#[trigger] s[i]),
    ensures
        pascal_prefix(s, n).len() > 0,
    decreases n,
{
    if is_alnum_char(s[n - 1]) {
        assert(pascal_emit(s, n - 1).len() == 1);
    } else {
        let i = choose|i: int| 0 <= i < n && is_alnum_char(#[trigger] s[i]);
        assert(0 <= i < n - 1);
        lemma_pascal_nonempty(s, n - 1);
    }
}

/// Namespace derivation is total: every package name with at least one
/// alphanumeric character (in particular one containing `@` and `/`) maps to
/// a non-empty identifier made of alphanumeric characters alone, so holding
/// neither `@` nor `/`.
pub proof fn lemma_namespace_total(s: Seq<char>)
    requires
        exists|i: int| 0 <= i < s.len() && is_alnum_char(#[trigger] s[i]),
    ensures
        namespace_of_name(s).len() > 0,
        forall|j: int|
            0 <= j < namespace_of_name(s).len() ==> is_alnum_char(#[trigger] namespace_of_name(s)[j]),
        forall|j: int|
            0 <= j < namespace_of_name(s).len() ==> namespace_of_name(s)[j] != '@'
                && namespace_of_name(s)[j] != '/',
{
    lemma_scrub_keeps_alnum(s, s.len() as int);
    let t = scrub_of(s);
    lemma_pascal_nonempty(t, t.len() as int);
    lemma_pascal_alnum(t, t.len() as int);
    assert forall|j: int| 0 <= j < namespace_of_name(s).len() implies namespace_of_name(s)[j] != '@'
        && namespace_of_name(s)[j] != '/' by {
        assert(is_alnum_char(namespace_of_name(s)[j]));
        assert('@' as u32 == 64 && '/' as u32 == 47);
    }
}

} // verus!
