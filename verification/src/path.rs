//! Paths as std's `Path` sees them on Unix: a sequence of components,
//! separated by `/`. Two paths are the same when their components are, so
//! repeated separators, `.` components (other than a leading one) and a
//! trailing separator make no difference.
use vstd::prelude::*;
use crate::text::{
    chars_of, lemma_split_on_join, lemma_split_on_nonempty, push_all, same_chars, split_chars, split_on, string_of,
};

verus! {

broadcast use vstd::string::group_string_axioms;

// ---------------------------------------------------------------------------
// Specifications
// ---------------------------------------------------------------------------

/// The component that stands for the root.
pub open spec fn root_component() -> Seq<char> {
    seq!['/']
}

/// The component that stands for the current folder.
pub open spec fn current_component() -> Seq<char> {
    seq!['.']
}

/// The test that keeps a piece between separators as a normal component:
/// it is neither empty nor `.`.
pub open spec fn is_named_piece() -> spec_fn(Seq<char>) -> bool {
    |piece: Seq<char>| piece.len() > 0 && piece != current_component()
}

/// The components of a path: the root for a leading `/`, the current folder
/// for a leading `.` piece of a relative path, then every other non-empty
/// piece that is not `.`.
pub open spec fn path_components(p: Seq<char>) -> Seq<Seq<char>> {
    let pieces = split_on(p, '/');
    let head = if p.len() > 0 && p[0] == '/' {
        seq![root_component()]
    } else if pieces[0] == current_component() {
        seq![current_component()]
    } else {
        Seq::<Seq<char>>::empty()
    };
    head + pieces.filter(is_named_piece())
}

/// Two paths name the same place.
pub open spec fn same_path(a: Seq<char>, b: Seq<char>) -> bool {
    path_components(a) == path_components(b)
}

/// The file name of a path: its last component when that is a name, not
/// the root, `.` or `..`.
pub open spec fn file_name_of(p: Seq<char>) -> Option<Seq<char>> {
    let cs = path_components(p);
    if cs.len() > 0 && cs.last() != root_component() && cs.last() != current_component()
        && cs.last() != seq!['.', '.'] {
        Some(cs.last())
    } else {
        None
    }
}

// ---------------------------------------------------------------------------
// Implementations
// ---------------------------------------------------------------------------

/// The components of `p`.
pub fn components(p: &str) -> (cs: Vec<Vec<char>>)
    ensures
        cs@.len() == path_components(p@).len(),
        forall|k: int| 0 <= k < cs@.len() ==> #[trigger] cs@[k]@ == path_components(p@)[k],
{
    let chars = chars_of(p);
    let pieces = split_chars(&chars, '/');
    let ghost sp = split_on(p@, '/');
    proof {
        lemma_split_on_nonempty(p@, '/');
    }
    let mut cs: Vec<Vec<char>> = Vec::new();
    let dot = vec!['.'];
    assert(dot@ =~= current_component());
    if chars.len() > 0 && chars[0] == '/' {
        let root = vec!['/'];
        assert(root@ =~= root_component());
        cs.push(root);
    } else if same_chars(&pieces[0], &dot) {
        let cur = vec!['.'];
        assert(cur@ =~= current_component());
        cs.push(cur);
    }
    let ghost head = cs@.map_values(|c: Vec<char>| c@);
    assert(head =~= path_components(p@).take(cs@.len() as int)) by {
        assert(head.len() == cs@.len());
    }
    let ghost start = cs@.len();
    assert(sp.take(0) =~= Seq::<Seq<char>>::empty());
    let mut i: usize = 0;
    proof {
        reveal(Seq::filter);
    }
    while i < pieces.len()
        invariant
            i <= pieces@.len(),
            pieces@.len() == sp.len(),
            sp == split_on(p@, '/'),
            forall|k: int| 0 <= k < pieces@.len() ==> #[trigger] pieces@[k]@ == sp[k],
            start <= 1,
            dot@ == current_component(),
            cs@.len() == start + sp.take(i as int).filter(is_named_piece()).len(),
            forall|k: int| 0 <= k < start ==> #[trigger] cs@[k]@ == path_components(p@)[k],
            forall|k: int|
                start <= k < cs@.len() ==> #[trigger] cs@[k]@ == sp.take(i as int).filter(
                    is_named_piece(),
                )[k - start],
            path_components(p@).len() == start + sp.filter(is_named_piece()).len(),
            forall|k: int|
                start <= k < path_components(p@).len() ==> #[trigger] path_components(p@)[k]
                    == sp.filter(is_named_piece())[k - start],
        decreases pieces.len() - i,
    {
        assert(sp.take(i + 1).drop_last() =~= sp.take(i as int));
        assert(sp.take(i + 1).last() == sp[i as int]);
        proof {
            reveal(Seq::filter);
        }
        let named = pieces[i].len() > 0 && !same_chars(&pieces[i], &dot);
        if named {
            let ghost before = cs@;
            let mut piece: Vec<char> = Vec::new();
            push_all(&mut piece, &pieces[i]);
            assert(piece@ =~= pieces@[i as int]@);
            cs.push(piece);
            assert forall|k: int| start <= k < cs@.len() implies #[trigger] cs@[k]@ == sp.take(
                i + 1,
            ).filter(is_named_piece())[k - start] by {
                if k < before.len() {
                    assert(cs@[k] == before[k]);
                }
            }
            assert forall|k: int| 0 <= k < start implies #[trigger] cs@[k]@ == path_components(
                p@,
            )[k] by {
                assert(cs@[k] == before[k]);
            }
        }
        i = i + 1;
    }
    assert(sp.take(pieces.len() as int) =~= sp);
    cs
}

/// Whether `a` and `b` name the same place.
pub fn is_same_path(a: &str, b: &str) -> (same: bool)
    ensures
        same == same_path(a@, b@),
{
    let ca = components(a);
    let cb = components(b);
    if ca.len() != cb.len() {
        return false;
    }
    let mut k: usize = 0;
    while k < ca.len()
        invariant
            ca@.len() == cb@.len(),
            ca@.len() == path_components(a@).len(),
            cb@.len() == path_components(b@).len(),
            forall|m: int| 0 <= m < ca@.len() ==> #[trigger] ca@[m]@ == path_components(a@)[m],
            forall|m: int| 0 <= m < cb@.len() ==> #[trigger] cb@[m]@ == path_components(b@)[m],
            k <= ca@.len(),
            forall|m: int| 0 <= m < k ==> path_components(a@)[m] == path_components(b@)[m],
        decreases ca.len() - k,
    {
        if !same_chars(&ca[k], &cb[k]) {
            assert(path_components(a@)[k as int] != path_components(b@)[k as int]);
            return false;
        }
        k = k + 1;
    }
    assert(path_components(a@) =~= path_components(b@));
    true
}

/// The file name of `p`, if its last component is a name.
pub fn file_name(p: &str) -> (name: Option<String>)
    ensures
        match name {
            Some(n) => file_name_of(p@) == Some(n@),
            None => file_name_of(p@) is None,
        },
{
    let cs = components(p);
    if cs.len() == 0 {
        return None;
    }
    let last = &cs[cs.len() - 1];
    let root = vec!['/'];
    let dot = vec!['.'];
    let dots = vec!['.', '.'];
    assert(root@ =~= root_component());
    assert(dot@ =~= current_component());
    assert(dots@ =~= seq!['.', '.']);
    if same_chars(last, &root) || same_chars(last, &dot) || same_chars(last, &dots) {
        None
    } else {
        Some(string_of(last))
    }
}

// ---------------------------------------------------------------------------
// Laws
// ---------------------------------------------------------------------------

/// Naming the same place is an equivalence.
pub proof fn lemma_same_path_equivalence(a: Seq<char>, b: Seq<char>, c: Seq<char>)
    ensures
        same_path(a, a),
        same_path(a, b) ==> same_path(b, a),
        same_path(a, b) && same_path(b, c) ==> same_path(a, c),
{
}


proof fn lemma_named_pieces_of_blank_and_dot()
    ensures
        seq![Seq::<char>::empty()].filter(is_named_piece()) == Seq::<Seq<char>>::empty(),
        seq![current_component()].filter(is_named_piece()) == Seq::<Seq<char>>::empty(),
{
    reveal_with_fuel(Seq::filter, 2);
    let a = seq![Seq::<char>::empty()];
    let b = seq![current_component()];
    assert(a.drop_last() =~= Seq::<Seq<char>>::empty());
    assert(b.drop_last() =~= Seq::<Seq<char>>::empty());
    assert(!is_named_piece()(a.last()));
    assert(!is_named_piece()(b.last()));
}

/// A trailing separator does not change the place a path names.
pub proof fn lemma_trailing_separator(p: Seq<char>)
    requires
        p.len() > 0,
    ensures
        same_path(p + seq!['/'], p),
{
    let e = Seq::<char>::empty();
    assert(p + seq!['/'] =~= p + seq!['/'] + e);
    lemma_split_on_join(p, e, '/');
    lemma_split_on_nonempty(p, '/');
    let sp = split_on(p, '/');
    assert(split_on(e, '/') == seq![e]);
    Seq::filter_distributes_over_add(sp, seq![e], is_named_piece());
    lemma_named_pieces_of_blank_and_dot();
    assert(sp + Seq::<Seq<char>>::empty() =~= sp);
    assert((sp + seq![e])[0] == sp[0]);
    assert((p + seq!['/'])[0] == p[0]);
    assert(sp.filter(is_named_piece()) + Seq::<Seq<char>>::empty() =~= sp.filter(is_named_piece()));
}

/// A `.` component between two parts of a path does not change the place
/// it names.
pub proof fn lemma_inner_current_component(x: Seq<char>, y: Seq<char>)
    ensures
        same_path(x + seq!['/', '.', '/'] + y, x + seq!['/'] + y),
{
    let dot = seq!['.'];
    let a = x + seq!['/'] + (dot + seq!['/'] + y);
    let b = x + seq!['/'] + y;
    assert(x + seq!['/', '.', '/'] + y =~= a);
    lemma_split_on_join(x, dot + seq!['/'] + y, '/');
    lemma_split_on_join(dot, y, '/');
    lemma_split_on_join(x, y, '/');
    lemma_split_on_nonempty(x, '/');
    let sx = split_on(x, '/');
    let sy = split_on(y, '/');
    let sd = split_on(dot, '/');
    assert(sd == seq![current_component()]) by {
        assert(dot.drop_last() =~= Seq::<char>::empty());
        assert(split_on(Seq::<char>::empty(), '/') == seq![Seq::<char>::empty()]);
        assert(dot.last() == '.');
        assert(seq![Seq::<char>::empty()].update(0, Seq::<char>::empty().push('.')) =~= seq![
            current_component(),
        ]);
    }
    Seq::filter_distributes_over_add(sd, sy, is_named_piece());
    Seq::filter_distributes_over_add(sx, sd + sy, is_named_piece());
    Seq::filter_distributes_over_add(sx, sy, is_named_piece());
    lemma_named_pieces_of_blank_and_dot();
    assert(Seq::<Seq<char>>::empty() + sy.filter(is_named_piece()) =~= sy.filter(is_named_piece()));
    assert(split_on(a, '/')[0] == sx[0]);
    assert(split_on(b, '/')[0] == sx[0]);
    if x.len() > 0 {
        assert(a[0] == x[0]);
        assert(b[0] == x[0]);
    } else {
        assert(a[0] == '/');
        assert(b[0] == '/');
    }
}

} // verus!
