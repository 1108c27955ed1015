//! The parts of a file name (stem and extension, as std's `Path` splits
//! them) and the names derived from them: collision-free candidates and
//! rename targets.
use vstd::prelude::*;
use crate::text::{
    chars_of, contains_seq, decimal, find_last, lemma_decimal_len, lemma_replace_absent, last_index_of, push_all,
    push_decimal, replace_all, replace_chars, same_chars, string_of,
};

verus! {

broadcast use vstd::string::group_string_axioms;

// ---------------------------------------------------------------------------
// Specifications
// ---------------------------------------------------------------------------

/// The file name split at its last dot into the part before and the part
/// after; a name that is `..`, has no dot, or whose only dot leads has no
/// extension.
pub open spec fn split_at_last_dot(name: Seq<char>) -> (Option<Seq<char>>, Option<Seq<char>>) {
    let k = last_index_of(name, '.');
    if name == seq!['.', '.'] {
        (Some(name), None)
    } else if k < 0 {
        (None, Some(name))
    } else if k == 0 {
        (Some(name), None)
    } else {
        (Some(name.take(k)), Some(name.skip(k + 1)))
    }
}

/// The stem of a file name: what `Path::file_stem` gives for it.
pub open spec fn stem_of(name: Seq<char>) -> Seq<char> {
    let (before, after) = split_at_last_dot(name);
    match before {
        Some(b) => b,
        None => after.unwrap(),
    }
}

/// The extension of a file name: what `Path::extension` gives for it.
pub open spec fn extension_of(name: Seq<char>) -> Option<Seq<char>> {
    let (before, after) = split_at_last_dot(name);
    if before is Some {
        after
    } else {
        None
    }
}

/// The extension, or the empty sequence when there is none.
pub open spec fn extension_or_empty(name: Seq<char>) -> Seq<char> {
    match extension_of(name) {
        Some(e) => e,
        None => Seq::empty(),
    }
}

/// The `counter`-th alternative to a taken file name: `stem (counter).ext`,
/// or `stem (counter)` when the extension is empty or missing.
pub open spec fn numbered_name(name: Seq<char>, counter: nat) -> Seq<char> {
    let ext = extension_or_empty(name);
    let base = stem_of(name) + seq![' ', '('] + decimal(counter) + seq![')'];
    if ext.len() == 0 {
        base
    } else {
        base + seq!['.'] + ext
    }
}

/// The placeholder for the stem in a rename pattern.
pub open spec fn stem_placeholder() -> Seq<char> {
    seq!['{', 'f', 'i', 'l', 'e', 'n', 'a', 'm', 'e', '}']
}

/// The placeholder for the extension in a rename pattern.
pub open spec fn extension_placeholder() -> Seq<char> {
    seq!['{', 'e', 'x', 't', '}']
}

/// The new name that a rename pattern gives a file: the stem placed first,
/// then the extension; files without an extension are not renamed.
pub open spec fn renamed(pattern: Seq<char>, name: Seq<char>) -> Option<Seq<char>> {
    match extension_of(name) {
        Some(ext) => Some(
            replace_all(
                replace_all(pattern, stem_placeholder(), stem_of(name)),
                extension_placeholder(),
                ext,
            ),
        ),
        None => None,
    }
}

/// Browsers' partial downloads: files whose extension is `crdownload` or
/// `part`.
pub open spec fn is_partial_download(name: Seq<char>) -> bool {
    extension_of(name) == Some(seq!['c', 'r', 'd', 'o', 'w', 'n', 'l', 'o', 'a', 'd'])
        || extension_of(name) == Some(seq!['p', 'a', 'r', 't'])
}

// ---------------------------------------------------------------------------
// Implementations
// ---------------------------------------------------------------------------

/// The characters of `s` from `from` to `to`.
fn slice_chars(s: &[char], from: usize, to: usize) -> (r: Vec<char>)
    requires
        from <= to <= s.len(),
    ensures
        r@ == s@.subrange(from as int, to as int),
{
    let mut r: Vec<char> = Vec::new();
    let mut k: usize = from;
    while k < to
        invariant
            from <= k <= to <= s.len(),
            r@ == s@.subrange(from as int, k as int),
        decreases to - k,
    {
        r.push(s[k]);
        assert(s@.subrange(from as int, k + 1) =~= s@.subrange(from as int, k as int).push(
            s@[k as int],
        ));
        k = k + 1;
    }
    r
}

/// The stem and the extension of a file name.
pub fn stem_and_extension(name: &[char]) -> (parts: (Vec<char>, Option<Vec<char>>))
    ensures
        parts.0@ == stem_of(name@),
        match parts.1 {
            Some(e) => extension_of(name@) == Some(e@),
            None => extension_of(name@) is None,
        },
{
    let dots = name.len() == 2 && name[0] == '.' && name[1] == '.';
    assert(dots <==> name@ == seq!['.', '.']) by {
        if name@ == seq!['.', '.'] {
            assert(name@[0] == '.' && name@[1] == '.');
        }
        if dots {
            assert(name@ =~= seq!['.', '.']);
        }
    }
    if dots {
        return (slice_chars(name, 0, name.len()), None);
    }
    match find_last(name, '.') {
        None => (slice_chars(name, 0, name.len()), None),
        Some(k) => {
            if k == 0 {
                (slice_chars(name, 0, name.len()), None)
            } else {
                (slice_chars(name, 0, k), Some(slice_chars(name, k + 1, name.len())))
            }
        },
    }
}

/// The characters of the rename placeholders.
fn placeholders() -> (p: (Vec<char>, Vec<char>))
    ensures
        p.0@ == stem_placeholder(),
        p.1@ == extension_placeholder(),
{
    let a = chars_of("{filename}");
    let b = chars_of("{ext}");
    proof {
        reveal_strlit("{filename}");
        reveal_strlit("{ext}");
    }
    assert(a@ =~= stem_placeholder());
    assert(b@ =~= extension_placeholder());
    (a, b)
}

/// The `counter`-th alternative to the taken file name `name`.
pub fn numbered_file_name(name: &str, counter: u64) -> (alt: String)
    ensures
        alt@ == numbered_name(name@, counter as nat),
{
    let chars = chars_of(name);
    let (stem, ext) = stem_and_extension(&chars);
    let mut out: Vec<char> = Vec::new();
    push_all(&mut out, &stem);
    out.push(' ');
    out.push('(');
    push_decimal(&mut out, counter);
    out.push(')');
    let ghost base = stem_of(name@) + seq![' ', '('] + decimal(counter as nat) + seq![')'];
    assert(out@ =~= base);
    match ext {
        Some(e) => {
            if e.len() > 0 {
                out.push('.');
                push_all(&mut out, &e);
                assert(out@ =~= base + seq!['.'] + e@);
            }
        },
        None => {},
    }
    string_of(&out)
}

/// The name that the rename `pattern` gives the file `name`, or `None`
/// when the file has no extension.
pub fn rename_target(pattern: &str, name: &str) -> (target: Option<String>)
    ensures
        match target {
            Some(t) => renamed(pattern@, name@) == Some(t@),
            None => renamed(pattern@, name@) is None,
        },
{
    let chars = chars_of(name);
    let (stem, ext) = stem_and_extension(&chars);
    match ext {
        None => None,
        Some(e) => {
            let (stem_mark, ext_mark) = placeholders();
            let p = chars_of(pattern);
            let step = replace_chars(&p, &stem_mark, &stem);
            let done = replace_chars(&step, &ext_mark, &e);
            Some(string_of(&done))
        },
    }
}

/// Whether `name` is a browser's partial download.
pub fn is_partial_download_name(name: &str) -> (b: bool)
    ensures
        b == is_partial_download(name@),
{
    let chars = chars_of(name);
    let (_stem, ext) = stem_and_extension(&chars);
    let a = chars_of("crdownload");
    let b = chars_of("part");
    proof {
        reveal_strlit("crdownload");
        reveal_strlit("part");
    }
    assert(a@ =~= seq!['c', 'r', 'd', 'o', 'w', 'n', 'l', 'o', 'a', 'd']);
    assert(b@ =~= seq!['p', 'a', 'r', 't']);
    match ext {
        None => false,
        Some(e) => same_chars(&e, &a) || same_chars(&e, &b),
    }
}


// ---------------------------------------------------------------------------
// Laws
// ---------------------------------------------------------------------------

/// A name with an extension is its stem, a dot and its extension.
pub proof fn lemma_stem_dot_extension(name: Seq<char>)
    requires
        extension_of(name) is Some,
    ensures
        name == stem_of(name) + seq!['.'] + extension_of(name).unwrap(),
{
    let k = last_index_of(name, '.');
    lemma_last_index_of(name, '.');
    assert(name =~= name.take(k) + seq!['.'] + name.skip(k + 1));
}

proof fn lemma_last_index_of(s: Seq<char>, c: char)
    ensures
        -1 <= last_index_of(s, c) < s.len(),
        last_index_of(s, c) >= 0 ==> s[last_index_of(s, c)] == c,
        forall|j: int| last_index_of(s, c) < j < s.len() ==> s[j] != c,
    decreases s.len(),
{
    if s.len() > 0 && s.last() != c {
        let init = s.drop_last();
        lemma_last_index_of(init, c);
        assert forall|j: int| last_index_of(s, c) < j < s.len() implies s[j] != c by {
            if j < init.len() {
                assert(init[j] == s[j]);
            }
        }
    }
}

/// The alternatives to a taken name differ from one another, so trying
/// counters one after another always reaches new names.
pub proof fn lemma_numbered_names_distinct(name: Seq<char>, a: nat, b: nat)
    requires
        a != b,
    ensures
        numbered_name(name, a) != numbered_name(name, b),
{
    let head = stem_of(name) + seq![' ', '('];
    let ext = extension_or_empty(name);
    let tail = if ext.len() == 0 {
        seq![')']
    } else {
        seq![')'] + seq!['.'] + ext
    };
    assert(numbered_name(name, a) =~= head + decimal(a) + tail);
    assert(numbered_name(name, b) =~= head + decimal(b) + tail);
    if numbered_name(name, a) == numbered_name(name, b) {
        let na = numbered_name(name, a);
        assert(decimal(a).len() == decimal(b).len());
        assert(decimal(a) =~= na.subrange(head.len() as int, (head.len() + decimal(a).len()) as int));
        assert(decimal(b) =~= na.subrange(head.len() as int, (head.len() + decimal(b).len()) as int));
        crate::text::lemma_decimal_injective(a, b);
    }
}


/// A rename pattern without placeholders names every file with an
/// extension the same: the pattern itself.
pub proof fn lemma_plain_pattern_is_kept(pattern: Seq<char>, name: Seq<char>)
    requires
        extension_of(name) is Some,
        !contains_seq(pattern, stem_placeholder()),
        !contains_seq(pattern, extension_placeholder()),
    ensures
        renamed(pattern, name) == Some(pattern),
{
    lemma_replace_absent(pattern, stem_placeholder(), stem_of(name));
    lemma_replace_absent(pattern, extension_placeholder(), extension_of(name).unwrap());
}


/// The `attempt`-th name to try for a file that should be called `name`:
/// the name itself first, then its numbered alternatives.
pub open spec fn candidate(name: Seq<char>, attempt: nat) -> Seq<char> {
    if attempt == 0 {
        name
    } else {
        numbered_name(name, attempt)
    }
}

/// The `attempt`-th name to try for a file that should be called `name`.
pub fn candidate_name(name: &str, attempt: u64) -> (c: String)
    ensures
        c@ == candidate(name@, attempt as nat),
{
    if attempt == 0 {
        String::from_str(name)
    } else {
        numbered_file_name(name, attempt)
    }
}

/// The attempt that follows a try whose name was `taken`, or `None` when the
/// name was free and is the one to use.
pub fn next_attempt(attempt: u64, taken: bool) -> (next: Option<u64>)
    requires
        attempt < u64::MAX,
    ensures
        taken ==> next == Some((attempt + 1) as u64),
        !taken ==> next is None,
{
    if taken {
        Some(attempt + 1)
    } else {
        None
    }
}

/// Different attempts try different names, so the search for a free name
/// never tries a name twice.
pub proof fn lemma_candidates_distinct(name: Seq<char>, a: nat, b: nat)
    requires
        a != b,
    ensures
        candidate(name, a) != candidate(name, b),
{
    if a != 0 && b != 0 {
        lemma_numbered_names_distinct(name, a, b);
    } else {
        let k = if a == 0 { b } else { a };
        lemma_decimal_len(k);
        if extension_of(name) is Some {
            lemma_stem_dot_extension(name);
        }
        assert(numbered_name(name, k).len() > name.len());
    }
}


/// The extension holds no dot, and the stem of a name with an extension
/// is not empty; a name without any dot is all stem and has no extension.
pub proof fn lemma_extension_after_last_dot(name: Seq<char>)
    ensures
        extension_of(name) matches Some(e) ==> (forall|m: int| 0 <= m < e.len() ==> e[m] != '.')
            && stem_of(name).len() > 0,
        (forall|m: int| 0 <= m < name.len() ==> name[m] != '.') ==> stem_of(name) == name
            && extension_of(name) is None,
{
    lemma_last_index_of(name, '.');
    let k = last_index_of(name, '.');
    if extension_of(name) is Some {
        let e = extension_of(name).unwrap();
        assert forall|m: int| 0 <= m < e.len() implies e[m] != '.' by {
            assert(e[m] == name[k + 1 + m]);
        }
    }
    if forall|m: int| 0 <= m < name.len() ==> name[m] != '.' {
        if k >= 0 {
            assert(name[k] == '.');
        }
        if name == seq!['.', '.'] {
            assert(name[0] == '.');
        }
    }
}

} // verus!
