//! Lexicographic order on dependency names, and a verified sort.
//!
//! Findings are presented sorted by name or by manifest path, so the crate
//! needs an order on strings that contracts can speak about: `chars_leq`
//! compares character sequences by Unicode scalar value, `str_leq` decides
//! it on string slices, and `sort_names` orders a vector of names by it.

use vstd::prelude::*;
use vstd::relations::{sorted_by, total_ordering};

verus! {

/// The view of every string in a sequence.
pub open spec fn names_view(s: Seq<String>) -> Seq<Seq<char>> {
    s.map_values(|x: String| x@)
}

/// Lexicographic "less than or equal" on character sequences; characters
/// compare by their Unicode scalar values.
pub open spec fn chars_leq(a: Seq<char>, b: Seq<char>) -> bool
    decreases a.len(),
{
    if a.len() == 0 {
        true
    } else if b.len() == 0 {
        false
    } else if (a[0] as u32) < (b[0] as u32) {
        true
    } else if (b[0] as u32) < (a[0] as u32) {
        false
    } else {
        chars_leq(a.drop_first(), b.drop_first())
    }
}

/// Strict lexicographic order on character sequences.
pub open spec fn chars_lt(a: Seq<char>, b: Seq<char>) -> bool {
    chars_leq(a, b) && a != b
}

/// The lexicographic order as a relation value, in the shape that
/// `sorted_by` and the ordering lemmas of vstd expect.
pub open spec fn lex_leq() -> spec_fn(Seq<char>, Seq<char>) -> bool {
    |a: Seq<char>, b: Seq<char>| chars_leq(a, b)
}

/// The lexicographic order relates every sequence to itself.
pub proof fn lemma_chars_leq_reflexive(a: Seq<char>)
    ensures
        chars_leq(a, a),
    decreases a.len(),
{
    if a.len() != 0 {
        lemma_chars_leq_reflexive(a.drop_first());
    }
}

/// Characters with the same Unicode scalar value are the same character.
pub proof fn lemma_char_eq(x: char, y: char)
    requires
        x as u32 == y as u32,
    ensures
        x == y,
{
}

/// Two sequences each lexicographically at most the other are equal.
pub proof fn lemma_chars_leq_antisymmetric(a: Seq<char>, b: Seq<char>)
    requires
        chars_leq(a, b),
        chars_leq(b, a),
    ensures
        a == b,
    decreases a.len(),
{
    if a.len() == 0 {
        assert(b.len() == 0);
        assert(a =~= b);
    } else {
        assert(b.len() != 0);
        if (a[0] as u32) < (b[0] as u32) {
            assert(!chars_leq(b, a));
        } else if (b[0] as u32) < (a[0] as u32) {
            assert(!chars_leq(a, b));
        } else {
            assert(a[0] as u32 == b[0] as u32);
            lemma_char_eq(a[0], b[0]);
            lemma_chars_leq_antisymmetric(a.drop_first(), b.drop_first());
            assert(a.len() == b.len());
            assert forall|i: int| 0 <= i < a.len() implies a[i] == b[i] by {
                if i > 0 {
                    assert(a[i] == a.drop_first()[i - 1]);
                    assert(b[i] == b.drop_first()[i - 1]);
                }
            }
            assert(a =~= b);
        }
    }
}

/// The lexicographic order is transitive.
pub proof fn lemma_chars_leq_transitive(a: Seq<char>, b: Seq<char>, c: Seq<char>)
    requires
        chars_leq(a, b),
        chars_leq(b, c),
    ensures
        chars_leq(a, c),
    decreases a.len(),
{
    if a.len() != 0 && b.len() != 0 && c.len() != 0 {
        if a[0] as u32 == b[0] as u32 && b[0] as u32 == c[0] as u32 {
            lemma_chars_leq_transitive(a.drop_first(), b.drop_first(), c.drop_first());
        }
    }
}

/// Any two sequences are related one way or the other.
pub proof fn lemma_chars_leq_connected(a: Seq<char>, b: Seq<char>)
    ensures
        chars_leq(a, b) || chars_leq(b, a),
    decreases a.len(),
{
    if a.len() != 0 && b.len() != 0 && a[0] as u32 == b[0] as u32 {
        lemma_chars_leq_connected(a.drop_first(), b.drop_first());
    }
}

/// The lexicographic order is a total ordering in the sense of vstd.
pub proof fn lemma_lex_leq_total_ordering()
    ensures
        total_ordering(lex_leq()),
{
    let leq = lex_leq();
    assert forall|a: Seq<char>| #[trigger] leq(a, a) by {
        lemma_chars_leq_reflexive(a);
    }
    assert forall|a: Seq<char>, b: Seq<char>| #[trigger] leq(a, b) && #[trigger] leq(b, a)
        implies a == b by {
        lemma_chars_leq_antisymmetric(a, b);
    }
    assert forall|a: Seq<char>, b: Seq<char>, c: Seq<char>|
        #[trigger] leq(a, b) && #[trigger] leq(b, c) implies #[trigger] leq(a, c) by {
        lemma_chars_leq_transitive(a, b, c);
    }
    assert forall|a: Seq<char>, b: Seq<char>| !(#[trigger] leq(a, b)) implies leq(b, a) by {
        lemma_chars_leq_connected(a, b);
    }
}

/// Decides the lexicographic order on two string slices.
pub fn str_leq(a: &str, b: &str) -> (r: bool)
    ensures
        r == chars_leq(a@, b@),
{
    let alen = a.unicode_len();
    let blen = b.unicode_len();
    let mut i: usize = 0;
    proof {
        assert(a@.skip(0) =~= a@);
        assert(b@.skip(0) =~= b@);
    }
    loop
        invariant
            i <= alen,
            i <= blen,
            alen == a@.len(),
            blen == b@.len(),
            chars_leq(a@, b@) == chars_leq(a@.skip(i as int), b@.skip(i as int)),
        decreases alen - i,
    {
        if i == alen {
            proof {
                assert(a@.skip(i as int).len() == 0);
            }
            return true;
        }
        if i == blen {
            proof {
                assert(b@.skip(i as int).len() == 0);
                assert(a@.skip(i as int).len() != 0);
            }
            return false;
        }
        let ca = a.get_char(i);
        let cb = b.get_char(i);
        proof {
            assert(a@.skip(i as int)[0] == a@[i as int]);
            assert(b@.skip(i as int)[0] == b@[i as int]);
        }
        if (ca as u32) < (cb as u32) {
            return true;
        }
        if (cb as u32) < (ca as u32) {
            return false;
        }
        proof {
            assert(a@.skip(i as int).drop_first() =~= a@.skip(i + 1));
            assert(b@.skip(i as int).drop_first() =~= b@.skip(i + 1));
        }
        i = i + 1;
    }
}

/// Mapping a pushed string to its view commutes with the push.
pub proof fn lemma_names_view_push(s: Seq<String>, x: String)
    ensures
        names_view(s.push(x)) =~= names_view(s).push(x@),
{
}

/// Mapping an inserted string to its view commutes with the insertion.
pub proof fn lemma_names_view_insert(s: Seq<String>, i: int, x: String)
    requires
        0 <= i <= s.len(),
    ensures
        names_view(s.insert(i, x)) =~= names_view(s).insert(i, x@),
{
    assert forall|k: int| 0 <= k < s.len() + 1 implies names_view(s.insert(i, x))[k]
        == names_view(s).insert(i, x@)[k] by {
        if k < i {
            assert(s.insert(i, x)[k] == s[k]);
        } else if k == i {
            assert(s.insert(i, x)[k] == x);
        } else {
            assert(s.insert(i, x)[k] == s[k - 1]);
        }
    }
}

/// Inserting a name between its lexicographic neighbours keeps a sequence
/// sorted.
pub proof fn lemma_sorted_insert(v: Seq<Seq<char>>, pos: int, x: Seq<char>)
    requires
        sorted_by(v, lex_leq()),
        0 <= pos <= v.len(),
        forall|k: int| 0 <= k < pos ==> chars_leq(#[trigger] v[k], x),
        pos < v.len() ==> chars_leq(x, v[pos]),
    ensures
        sorted_by(v.insert(pos, x), lex_leq()),
{
    let leq = lex_leq();
    let w = v.insert(pos, x);
    assert forall|i: int, j: int| 0 <= i <= j < w.len() implies leq(w[i], w[j]) by {
        if i == j {
            lemma_chars_leq_reflexive(w[i]);
        } else if j < pos {
            assert(w[i] == v[i] && w[j] == v[j]);
            assert(leq(v[i], v[j]));
        } else if j == pos {
            assert(w[i] == v[i] && w[j] == x);
        } else if i < pos {
            assert(w[i] == v[i] && w[j] == v[j - 1]);
            if pos == j - 1 {
                assert(chars_leq(v[i], x));
                assert(chars_leq(x, v[pos]));
                lemma_chars_leq_transitive(v[i], x, v[j - 1]);
            } else {
                assert(leq(v[i], v[j - 1]));
            }
        } else if i == pos {
            assert(w[i] == x && w[j] == v[j - 1]);
            assert(pos <= j - 1 && pos < v.len());
            if pos == j - 1 {
                assert(chars_leq(x, v[pos]));
            } else {
                assert(leq(v[pos], v[j - 1]));
                lemma_chars_leq_transitive(x, v[pos], v[j - 1]);
            }
        } else {
            assert(w[i] == v[i - 1] && w[j] == v[j - 1]);
            assert(leq(v[i - 1], v[j - 1]));
        }
    }
}

/// The position at which `x` can be inserted into a sorted vector of names
/// without disturbing the order.
fn insert_position(out: &Vec<String>, x: &String) -> (pos: usize)
    requires
        sorted_by(names_view(out@), lex_leq()),
    ensures
        pos <= out@.len(),
        forall|k: int| 0 <= k < pos ==> chars_leq(#[trigger] names_view(out@)[k], x@),
        pos < out@.len() ==> chars_leq(x@, names_view(out@)[pos as int]),
{
    let mut pos: usize = 0;
    while pos < out.len()
        invariant_except_break
            pos <= out@.len(),
            forall|k: int| 0 <= k < pos ==> chars_leq(#[trigger] names_view(out@)[k], x@),
        ensures
            pos <= out@.len(),
            forall|k: int| 0 <= k < pos ==> chars_leq(#[trigger] names_view(out@)[k], x@),
            pos < out@.len() ==> chars_leq(x@, names_view(out@)[pos as int]),
        decreases out@.len() - pos,
    {
        if !str_leq(out[pos].as_str(), x.as_str()) {
            proof {
                lemma_chars_leq_connected(out@[pos as int]@, x@);
                assert(names_view(out@)[pos as int] == out@[pos as int]@);
            }
            break;
        }
        proof {
            assert(names_view(out@)[pos as int] == out@[pos as int]@);
        }
        pos = pos + 1;
    }
    pos
}

/// Sorts dependency names lexicographically; the result holds exactly the
/// given names.
pub fn sort_names(input: Vec<String>) -> (r: Vec<String>)
    ensures
        sorted_by(names_view(r@), lex_leq()),
        names_view(r@).to_multiset() == names_view(input@).to_multiset(),
{
    broadcast use vstd::seq_lib::group_to_multiset_ensures;

    let mut out: Vec<String> = Vec::new();
    let mut idx: usize = 0;
    proof {
        assert(names_view(input@.subrange(0, 0)) =~= names_view(out@));
    }
    while idx < input.len()
        invariant
            idx <= input@.len(),
            sorted_by(names_view(out@), lex_leq()),
            names_view(out@).to_multiset() == names_view(
                input@.subrange(0, idx as int),
            ).to_multiset(),
        decreases input@.len() - idx,
    {
        let x = input[idx].clone();
        let pos = insert_position(&out, &x);
        let ghost out0 = out@;
        proof {
            lemma_sorted_insert(names_view(out0), pos as int, x@);
        }
        out.insert(pos, x.clone());
        proof {
            lemma_names_view_insert(out0, pos as int, x);
            assert(names_view(out@) =~= names_view(out0).insert(pos as int, x@));
            vstd::seq_lib::to_multiset_insert(names_view(out0), pos as int, x@);
            assert(input@.subrange(0, idx + 1) =~= input@.subrange(0, idx as int).push(
                input@[idx as int],
            ));
            lemma_names_view_push(input@.subrange(0, idx as int), input@[idx as int]);
            vstd::seq_lib::to_multiset_build(names_view(input@.subrange(0, idx as int)), x@);
        }
        idx = idx + 1;
    }
    proof {
        assert(input@.subrange(0, input@.len() as int) =~= input@);
    }
    out
}

} // verus!
