//! The order of texts, and sorted lists of them.

use crate::text::{texts, to_chars};
use vstd::prelude::*;
use vstd::string::*;

verus! {

/// The lexicographic order of texts, by the code points of their characters.
pub open spec fn text_le(a: Seq<char>, b: Seq<char>) -> bool
    decreases a.len(),
{
    if a.len() == 0 {
        true
    } else if b.len() == 0 {
        false
    } else if a[0] != b[0] {
        a[0] < b[0]
    } else {
        text_le(a.skip(1), b.skip(1))
    }
}

/// Whether a list of texts is in order.
pub open spec fn in_order(list: Seq<Seq<char>>) -> bool {
    forall|i: int, j: int|
        0 <= i <= j < list.len() ==> text_le(#[trigger] list[i], #[trigger] list[j])
}

pub proof fn lemma_text_le_reflexive(a: Seq<char>)
    ensures
        text_le(a, a),
    decreases a.len(),
{
    if a.len() > 0 {
        lemma_text_le_reflexive(a.skip(1));
    }
}

pub proof fn lemma_text_le_total(a: Seq<char>, b: Seq<char>)
    ensures
        text_le(a, b) || text_le(b, a),
    decreases a.len(),
{
    if a.len() > 0 && b.len() > 0 {
        lemma_text_le_total(a.skip(1), b.skip(1));
    }
}

pub proof fn lemma_text_le_transitive(a: Seq<char>, b: Seq<char>, c: Seq<char>)
    requires
        text_le(a, b),
        text_le(b, c),
    ensures
        text_le(a, c),
    decreases a.len(),
{
    if a.len() > 0 && b.len() > 0 && c.len() > 0 && a[0] == b[0] && b[0] == c[0] {
        lemma_text_le_transitive(a.skip(1), b.skip(1), c.skip(1));
    }
}

/// Whether `a` comes before `b` or equals it.
pub fn not_after(a: &str, b: &str) -> (r: bool)
    ensures
        r == text_le(a@, b@),
{
    let x = to_chars(a);
    let y = to_chars(b);
    let mut i: usize = 0;
    assert(x@.skip(0) =~= x@);
    assert(y@.skip(0) =~= y@);
    while i < x.len()
        invariant
            i <= x@.len(),
            i <= y@.len(),
            text_le(x@, y@) == text_le(x@.skip(i as int), y@.skip(i as int)),
            x@ == a@,
            y@ == b@,
        decreases x@.len() - i,
    {
        if i == y.len() {
            return false;
        }
        if x[i] != y[i] {
            return x[i] < y[i];
        }
        assert(x@.skip(i as int).skip(1) =~= x@.skip(i + 1));
        assert(y@.skip(i as int).skip(1) =~= y@.skip(i + 1));
        i += 1;
    }
    true
}

/// Puts a text at its place in a sorted list.
pub fn insert_in_order(list: &mut Vec<String>, text: String)
    requires
        in_order(texts(old(list)@)),
    ensures
        in_order(texts(final(list)@)),
        exists|at: int|
            0 <= at <= old(list)@.len() && texts(final(list)@) == #[trigger] texts(
                old(list)@,
            ).insert(at, text@),
{
    let ghost before = texts(list@);
    let mut at: usize = 0;
    while at < list.len() && not_after(list[at].as_str(), text.as_str())
        invariant
            at <= list@.len(),
            before == texts(list@),
            forall|k: int| 0 <= k < at ==> text_le(#[trigger] before[k], text@),
        decreases list@.len() - at,
    {
        assert(before[at as int] == list@[at as int]@);
        at += 1;
    }
    proof {
        if at < list@.len() {
            assert(before[at as int] == list@[at as int]@);
        }
        let after = before.insert(at as int, text@);
        assert forall|i: int, j: int| 0 <= i <= j < after.len() implies text_le(
            #[trigger] after[i],
            #[trigger] after[j],
        ) by {
            lemma_text_le_reflexive(text@);
            if i < at && j > at {
                assert(text_le(before[i], before[j - 1]));
            } else if i == at && j > at {
                lemma_text_le_total(before[at as int], text@);
                assert(text_le(before[at as int], before[j - 1]));
                lemma_text_le_transitive(text@, before[at as int], before[j - 1]);
            } else if i > at {
                assert(text_le(before[i - 1], before[j - 1]));
            } else if j < at {
                assert(text_le(before[i], before[j]));
            }
        }
    }
    list.insert(at, text);
    assert(texts(list@) =~= before.insert(at as int, text@));
}

/// Texts are ordered by the first character in which they differ, and a text comes before
/// those that go on from it.
pub proof fn law_the_first_difference_decides(
    shared: Seq<char>,
    a: char,
    b: char,
    x: Seq<char>,
    y: Seq<char>,
)
    requires
        a != b,
    ensures
        text_le(shared + seq![a] + x, shared + seq![b] + y) <==> a < b,
        text_le(shared, shared + x),
        x.len() > 0 ==> !text_le(shared + x, shared),
    decreases shared.len(),
{
    let s = shared + seq![a] + x;
    let t = shared + seq![b] + y;
    if shared.len() == 0 {
        assert(s[0] == a);
        assert(t[0] == b);
    } else {
        let rest = shared.skip(1);
        law_the_first_difference_decides(rest, a, b, x, y);
        assert(s.skip(1) =~= rest + seq![a] + x);
        assert(t.skip(1) =~= rest + seq![b] + y);
        assert((shared + x).skip(1) =~= rest + x);
    }
}

/// In a list in order no text comes after a smaller one, and a list in which none does is
/// in order.
pub proof fn law_lists_in_order_ascend(list: Seq<Seq<char>>, i: int, j: int)
    ensures
        in_order(list) && 0 <= i <= j < list.len() ==> text_le(list[i], list[j]),
        (forall|x: int, y: int|
            0 <= x <= y < list.len() ==> text_le(#[trigger] list[x], #[trigger] list[y]))
            ==> in_order(list),
{
}

} // verus!
