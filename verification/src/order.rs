//! The order in which the files of a directory are imported: by their path
//! components, as paths compare.

use vstd::prelude::*;

use crate::text::string_views;

verus! {

/// Whether `a` comes before `b` character by character (shorter first where
/// one begins the other): the order of names by their UTF-8 bytes.
pub open spec fn chars_lt(a: Seq<char>, b: Seq<char>) -> bool
    decreases a.len(),
{
    if a.len() == 0 {
        b.len() > 0
    } else if b.len() == 0 {
        false
    } else if a[0] != b[0] {
        a[0] < b[0]
    } else {
        chars_lt(a.drop_first(), b.drop_first())
    }
}

/// Whether the components `a` of a path come before the components `b` of
/// another, component by component.
pub open spec fn comps_lt(a: Seq<Seq<char>>, b: Seq<Seq<char>>) -> bool
    decreases a.len(),
{
    if a.len() == 0 {
        b.len() > 0
    } else if b.len() == 0 {
        false
    } else if a[0] != b[0] {
        chars_lt(a[0], b[0])
    } else {
        comps_lt(a.drop_first(), b.drop_first())
    }
}

proof fn lemma_chars_lt_total(a: Seq<char>, b: Seq<char>)
    ensures
        a == b || chars_lt(a, b) || chars_lt(b, a),
        !(chars_lt(a, b) && chars_lt(b, a)),
    decreases a.len(),
{
    if a.len() > 0 && b.len() > 0 {
        if a[0] == b[0] {
            lemma_chars_lt_total(a.drop_first(), b.drop_first());
            if a.drop_first() == b.drop_first() {
                assert(a =~= seq![a[0]] + a.drop_first());
                assert(b =~= seq![b[0]] + b.drop_first());
            }
        }
    } else if a.len() == 0 && b.len() == 0 {
        assert(a =~= b);
    }
}

proof fn lemma_chars_lt_transitive(a: Seq<char>, b: Seq<char>, c: Seq<char>)
    requires
        chars_lt(a, b),
        chars_lt(b, c),
    ensures
        chars_lt(a, c),
    decreases a.len(),
{
    if a.len() > 0 && b.len() > 0 && c.len() > 0 {
        if a[0] == b[0] && b[0] == c[0] {
            lemma_chars_lt_transitive(a.drop_first(), b.drop_first(), c.drop_first());
        }
    }
}

proof fn lemma_comps_lt_total(a: Seq<Seq<char>>, b: Seq<Seq<char>>)
    ensures
        a == b || comps_lt(a, b) || comps_lt(b, a),
        !(comps_lt(a, b) && comps_lt(b, a)),
    decreases a.len(),
{
    if a.len() > 0 && b.len() > 0 {
        if a[0] == b[0] {
            lemma_comps_lt_total(a.drop_first(), b.drop_first());
            if a.drop_first() == b.drop_first() {
                assert(a =~= seq![a[0]] + a.drop_first());
                assert(b =~= seq![b[0]] + b.drop_first());
            }
        } else {
            lemma_chars_lt_total(a[0], b[0]);
        }
    } else if a.len() == 0 && b.len() == 0 {
        assert(a =~= b);
    }
}

proof fn lemma_comps_lt_transitive(a: Seq<Seq<char>>, b: Seq<Seq<char>>, c: Seq<Seq<char>>)
    requires
        comps_lt(a, b),
        comps_lt(b, c),
    ensures
        comps_lt(a, c),
    decreases a.len(),
{
    if a.len() > 0 && b.len() > 0 && c.len() > 0 {
        if a[0] == b[0] && b[0] == c[0] {
            lemma_comps_lt_transitive(a.drop_first(), b.drop_first(), c.drop_first());
        } else if a[0] == b[0] {
        } else if b[0] == c[0] {
        } else {
            lemma_chars_lt_transitive(a[0], b[0], c[0]);
            if a[0] == c[0] {
                lemma_chars_lt_total(a[0], b[0]);
            }
        }
    }
}

/// The place of file `i` in the import order: by its components, and among
/// equal components by its place in the list (the order is stable).
pub open spec fn before(paths: Seq<Seq<Seq<char>>>, i: int, j: int) -> bool {
    comps_lt(paths[i], paths[j]) || (paths[i] == paths[j] && i < j)
}

proof fn lemma_before_transitive(paths: Seq<Seq<Seq<char>>>, i: int, j: int, k: int)
    requires
        before(paths, i, j),
        before(paths, j, k),
    ensures
        before(paths, i, k),
{
    if comps_lt(paths[i], paths[j]) && comps_lt(paths[j], paths[k]) {
        lemma_comps_lt_transitive(paths[i], paths[j], paths[k]);
    }
}

/// `order` lists every position of `0..n` once.
pub open spec fn is_permutation(order: Seq<usize>, n: int) -> bool {
    &&& order.len() == n
    &&& forall|i: int| 0 <= i < n ==> #[trigger] order[i] < n
    &&& forall|i: int, j: int| 0 <= i < j < n ==> #[trigger] order[i] != #[trigger] order[j]
}

/// `order` lists the files in the import order.
pub open spec fn is_sorted_order(paths: Seq<Seq<Seq<char>>>, order: Seq<usize>) -> bool {
    forall|i: int, j: int|
        0 <= i < j < order.len() ==> before(paths, #[trigger] order[i] as int, #[trigger] order[j] as int)
}

fn chars_less(a: &Vec<char>, b: &Vec<char>) -> (res: bool)
    ensures
        res == chars_lt(a@, b@),
{
    let mut i: usize = 0;
    assert(a@.skip(0) =~= a@);
    assert(b@.skip(0) =~= b@);
    while i < a.len() && i < b.len() && a[i] == b[i]
        invariant
            i <= a.len(),
            i <= b.len(),
            chars_lt(a@, b@) == chars_lt(a@.skip(i as int), b@.skip(i as int)),
        decreases a.len() - i,
    {
        assert(a@.skip(i as int).drop_first() =~= a@.skip(i + 1));
        assert(b@.skip(i as int).drop_first() =~= b@.skip(i + 1));
        i = i + 1;
    }
    if i == a.len() {
        i < b.len()
    } else if i == b.len() {
        false
    } else {
        a[i] < b[i]
    }
}

fn comps_less(a: &Vec<String>, b: &Vec<String>) -> (res: bool)
    ensures
        res == comps_lt(string_views(a@), string_views(b@)),
{
    let ghost av = string_views(a@);
    let ghost bv = string_views(b@);
    let mut i: usize = 0;
    assert(av.skip(0) =~= av);
    assert(bv.skip(0) =~= bv);
    loop
        invariant
            i <= a.len(),
            i <= b.len(),
            av == string_views(a@),
            bv == string_views(b@),
            comps_lt(av, bv) == comps_lt(av.skip(i as int), bv.skip(i as int)),
        decreases a.len() - i,
    {
        if i == a.len() {
            return i < b.len();
        }
        if i == b.len() {
            return false;
        }
        let x = crate::text::chars_of(a[i].as_str());
        let y = crate::text::chars_of(b[i].as_str());
        assert(av.skip(i as int)[0] == x@);
        assert(bv.skip(i as int)[0] == y@);
        if !crate::text::chars_eq(&x, &y) {
            return chars_less(&x, &y);
        }
        assert(av.skip(i as int).drop_first() =~= av.skip(i + 1));
        assert(bv.skip(i as int).drop_first() =~= bv.skip(i + 1));
        i = i + 1;
    }
}

/// The components of each file's path, as the library compares them.
pub open spec fn components_view(paths: Seq<Vec<String>>) -> Seq<Seq<Seq<char>>> {
    paths.map_values(|p: Vec<String>| string_views(p@))
}

/// The order in which to import files, given the components of their paths:
/// by components, each compared character by character, and, among equal
/// ones, in the order given (as a stable sort of the paths orders them).
pub fn import_order(paths: &Vec<Vec<String>>) -> (res: Vec<usize>)
    ensures
        is_permutation(res@, paths@.len() as int),
        is_sorted_order(components_view(paths@), res@),
{
    let ghost pv = components_view(paths@);
    let mut order: Vec<usize> = Vec::new();
    let mut k: usize = 0;
    while k < paths.len()
        invariant
            k <= paths.len(),
            pv == components_view(paths@),
            is_permutation(order@, k as int),
            is_sorted_order(pv, order@),
        decreases paths.len() - k,
    {
        let mut pos: usize = 0;
        while pos < order.len() && !comps_less(&paths[k], &paths[order[pos]])
            invariant
                pos <= order.len() == k,
                k < paths.len(),
                pv == components_view(paths@),
                is_permutation(order@, k as int),
                forall|q: int| 0 <= q < pos ==> !comps_lt(pv[k as int], #[trigger] pv[order@[q] as int]),
            decreases order.len() - pos,
        {
            assert(pv[k as int] == string_views(paths@[k as int]@));
            assert(pv[order@[pos as int] as int] == string_views(paths@[order@[pos as int] as int]@));
            pos = pos + 1;
        }
        proof {
            if pos < order.len() {
                assert(pv[k as int] == string_views(paths@[k as int]@));
                assert(pv[order@[pos as int] as int] == string_views(paths@[order@[pos as int] as int]@));
                assert(comps_lt(pv[k as int], pv[order@[pos as int] as int]));
            }
        }
        let ghost old_order = order@;
        order.insert(pos, k);
        proof {
            assert forall|i: int| 0 <= i < k + 1 implies #[trigger] order@[i] < k + 1 by {
                if i < pos {
                    assert(order@[i] == old_order[i]);
                } else if i > pos {
                    assert(order@[i] == old_order[i - 1]);
                }
            }
            assert forall|i: int, j: int| 0 <= i < j < k + 1 implies #[trigger] order@[i]
                != #[trigger] order@[j] by {
                if i < pos && j < pos {
                    assert(old_order[i] != old_order[j]);
                } else if i > pos && j > pos {
                    assert(old_order[i - 1] != old_order[j - 1]);
                } else if i < pos && j > pos {
                    assert(old_order[i] != old_order[j - 1]);
                }
            }
            assert forall|i: int, j: int| 0 <= i < j < order@.len() implies before(
                pv,
                #[trigger] order@[i] as int,
                #[trigger] order@[j] as int,
            ) by {
                let ki = k as int;
                if i < pos && j < pos {
                    assert(before(pv, old_order[i] as int, old_order[j] as int));
                } else if i > pos && j > pos {
                    assert(before(pv, old_order[i - 1] as int, old_order[j - 1] as int));
                } else if i < pos && j == pos {
                    let oi = old_order[i] as int;
                    assert(!comps_lt(pv[ki], pv[oi]));
                    lemma_comps_lt_total(pv[ki], pv[oi]);
                    assert(oi < ki);
                } else if i < pos && j > pos {
                    assert(before(pv, old_order[i] as int, old_order[j - 1] as int));
                } else if i == pos && j > pos {
                    let op = old_order[pos as int] as int;
                    let oj = old_order[j - 1] as int;
                    assert(comps_lt(pv[ki], pv[op]));
                    if j - 1 > pos {
                        assert(before(pv, op, oj));
                        lemma_before_transitive(pv, ki, op, oj);
                    }
                }
            }
        }
        k = k + 1;
    }
    order
}

} // verus!
