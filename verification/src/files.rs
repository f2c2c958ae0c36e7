//! Selection of monthly data files: keep the names inside an inclusive
//! lexicographic range and return them sorted ascending. With the
//! `YYYY-MM-DATA.json` naming scheme, lexicographic order on names is
//! chronological order, so the sorted selection is chronological.

use vstd::prelude::*;

use vstd::multiset::Multiset;

verus! {

/// Lexicographic order on character sequences (code-point order, the
/// order Rust gives strings).
pub open spec fn lex_le(a: Seq<char>, b: Seq<char>) -> bool
    decreases a.len(),
{
    if a.len() == 0 {
        true
    } else if b.len() == 0 {
        false
    } else if a[0] != b[0] {
        a[0] < b[0]
    } else {
        lex_le(a.drop_first(), b.drop_first())
    }
}

/// Any two sequences are ordered one way or the other.
pub proof fn lemma_lex_total(a: Seq<char>, b: Seq<char>)
    ensures
        lex_le(a, b) || lex_le(b, a),
    decreases a.len(),
{
    if a.len() > 0 && b.len() > 0 && a[0] == b[0] {
        lemma_lex_total(a.drop_first(), b.drop_first());
    }
}

/// Lexicographic order is transitive.
pub proof fn lemma_lex_trans(a: Seq<char>, b: Seq<char>, c: Seq<char>)
    requires
        lex_le(a, b),
        lex_le(b, c),
    ensures
        lex_le(a, c),
    decreases a.len(),
{
    if a.len() > 0 && b.len() > 0 && c.len() > 0 && a[0] == b[0] && b[0] == c[0] {
        lemma_lex_trans(a.drop_first(), b.drop_first(), c.drop_first());
    }
}

/// Compares two strings lexicographically by characters.
pub fn str_le(a: &String, b: &String) -> (r: bool)
    ensures
        r == lex_le(a@, b@),
{
    let an = a.as_str().unicode_len();
    let bn = b.as_str().unicode_len();
    let mut i: usize = 0;
    proof {
        assert(a@.skip(0) =~= a@);
        assert(b@.skip(0) =~= b@);
    }
    loop
        invariant
            i <= an,
            i <= bn,
            an == a@.len(),
            bn == b@.len(),
            lex_le(a@, b@) == lex_le(a@.skip(i as int), b@.skip(i as int)),
        decreases an - i,
    {
        if i == an {
            proof {
                assert(a@.skip(i as int).len() == 0);
            }
            return true;
        }
        if i == bn {
            proof {
                assert(b@.skip(i as int).len() == 0);
                assert(a@.skip(i as int).len() > 0);
            }
            return false;
        }
        let ca = a.as_str().get_char(i);
        let cb = b.as_str().get_char(i);
        proof {
            assert(a@.skip(i as int)[0] == a@[i as int]);
            assert(b@.skip(i as int)[0] == b@[i as int]);
        }
        if ca != cb {
            return ca < cb;
        }
        proof {
            assert(a@.skip(i as int).drop_first() =~= a@.skip(i as int + 1));
            assert(b@.skip(i as int).drop_first() =~= b@.skip(i as int + 1));
        }
        i = i + 1;
    }
}

/// The views (character sequences) of a list of strings.
pub open spec fn views(s: Seq<String>) -> Seq<Seq<char>> {
    s.map_values(|x: String| x@)
}

/// Whether a name lies in the inclusive range `[first, last]`.
pub open spec fn in_name_range(name: Seq<char>, first: Seq<char>, last: Seq<char>) -> bool {
    lex_le(first, name) && lex_le(name, last)
}

/// Selects the file names with `first <= name <= last` (both ends
/// inclusive, lexicographically) and returns them sorted ascending.
///
/// The result holds exactly the in-range input names (as a multiset), in
/// non-decreasing order; nothing else. An empty directory listing gives an
/// empty result.
pub fn select_file_names(names: &Vec<String>, first: &String, last: &String) -> (r: Vec<String>)
    ensures
        forall|i: int, j: int| 0 <= i < j < r@.len() ==> lex_le(r@[i]@, r@[j]@),
        forall|i: int| 0 <= i < r@.len() ==> in_name_range(r@[i]@, first@, last@),
        views(r@).to_multiset() == views(names@).filter(
            |n: Seq<char>| in_name_range(n, first@, last@),
        ).to_multiset(),
{
    broadcast use vstd::multiset::group_multiset_axioms;
    broadcast use vstd::seq_lib::group_to_multiset_ensures;
    broadcast use vstd::seq_lib::group_filter_ensures;

    let ghost pred = |n: Seq<char>| in_name_range(n, first@, last@);
    let mut kept: Vec<String> = Vec::new();
    let mut i: usize = 0;
    while i < names.len()
        invariant
            i <= names@.len(),
            views(kept@) =~= views(names@.take(i as int)).filter(pred),
            pred == (|n: Seq<char>| in_name_range(n, first@, last@)),
        decreases names@.len() - i,
    {
        let ghost prev = kept@;
        let name_ref = &names[i];
        let keep = str_le(first, name_ref) && str_le(name_ref, last);
        if keep {
            kept.push(name_ref.clone());
        }
        proof {
            reveal(Seq::filter);
            assert(views(names@.take(i as int + 1)).drop_last() =~= views(names@.take(i as int)));
            assert(views(names@.take(i as int + 1)).last() == names@[i as int]@);
            if keep {
                assert(views(kept@) =~= views(prev).push(names@[i as int]@));
            } else {
                assert(views(kept@) =~= views(prev));
            }
        }
        i = i + 1;
    }
    proof {
        assert(names@.take(names@.len() as int) =~= names@);
    }
    // Selection sort on the kept names.
    let ghost total = views(kept@).to_multiset();
    let mut src = kept;
    let mut out: Vec<String> = Vec::new();
    proof {
        assert(views(out@) =~= Seq::<Seq<char>>::empty());
        assert(views(out@).to_multiset().add(views(src@).to_multiset()) =~= total);
        assert forall|i: int| 0 <= i < src@.len() implies pred(src@[i]@) by {
            assert(views(names@).filter(pred)[i] == views(src@)[i]);
            assert(views(src@)[i] == src@[i]@);
        }
    }
    while src.len() > 0
        invariant
            views(out@).to_multiset().add(views(src@).to_multiset()) == total,
            forall|i: int, j: int| 0 <= i < j < out@.len() ==> lex_le(out@[i]@, out@[j]@),
            forall|x: int, y: int|
                0 <= x < out@.len() && 0 <= y < src@.len() ==> lex_le(out@[x]@, src@[y]@),
            forall|i: int| 0 <= i < out@.len() ==> pred(out@[i]@),
            forall|i: int| 0 <= i < src@.len() ==> pred(src@[i]@),
            pred == (|n: Seq<char>| in_name_range(n, first@, last@)),
        decreases src@.len(),
    {
        let mut m: usize = 0;
        let mut k: usize = 1;
        proof {
            lemma_lex_total(src@[0]@, src@[0]@);
        }
        while k < src.len()
            invariant
                m < k <= src@.len(),
                forall|j: int| 0 <= j < k ==> lex_le(src@[m as int]@, #[trigger] src@[j]@),
            decreases src@.len() - k,
        {
            if !str_le(&src[m], &src[k]) {
                proof {
                    lemma_lex_total(src@[m as int]@, src@[k as int]@);
                    assert forall|j: int| 0 <= j < k + 1 implies lex_le(
                        src@[k as int]@,
                        #[trigger] src@[j]@,
                    ) by {
                        if j < k {
                            lemma_lex_trans(src@[k as int]@, src@[m as int]@, src@[j]@);
                        } else {
                            lemma_lex_total(src@[k as int]@, src@[k as int]@);
                        }
                    }
                }
                m = k;
            }
            k = k + 1;
        }
        let ghost pre = src@;
        let x = src.remove(m);
        proof {
            broadcast use vstd::multiset::group_multiset_axioms;

            vstd::seq_lib::to_multiset_remove(views(pre), m as int);
            vstd::seq_lib::to_multiset_contains(views(pre), x@);
            assert(views(src@) =~= views(pre).remove(m as int));
            assert(views(pre)[m as int] == x@);
            assert(views(pre).contains(x@));
            assert(views(pre).to_multiset().count(x@) > 0);
        }
        let ghost preout = out@;
        out.push(x);
        proof {
            broadcast use vstd::multiset::group_multiset_axioms;

            vstd::seq_lib::to_multiset_build(views(preout), x@);
            assert(views(out@) =~= views(preout).push(x@));
            assert(views(out@).to_multiset() =~= views(preout).to_multiset().insert(x@));
            assert(views(out@).to_multiset().add(views(src@).to_multiset()) =~= total);
            assert forall|y: int| 0 <= y < src@.len() implies lex_le(x@, src@[y]@) by {
                if y < m {
                    assert(src@[y] == pre[y]);
                    assert(lex_le(pre[m as int]@, pre[y]@));
                } else {
                    assert(src@[y] == pre[y + 1]);
                    assert(lex_le(pre[m as int]@, pre[y + 1]@));
                }
            }
        }
    }
    proof {
        broadcast use vstd::multiset::group_multiset_axioms;

        assert(views(src@).to_multiset() =~= Multiset::empty());
        assert(views(out@).to_multiset() =~= total);
    }
    out
}

} // verus!
