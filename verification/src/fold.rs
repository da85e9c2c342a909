//! Going through a sequence with a rule that may fail.

use crate::error::Failure;
use vstd::prelude::*;

verus! {

/// The results of `rule` on the items in order, or the failure on the first item on
/// which it fails.
pub open spec fn try_map<A, B>(
    items: Seq<A>,
    rule: spec_fn(A) -> Result<B, Failure>,
) -> Result<Seq<B>, Failure>
    decreases items.len(),
{
    if items.len() == 0 {
        Ok(Seq::empty())
    } else {
        match try_map(items.drop_last(), rule) {
            Err(e) => Err(e),
            Ok(done) => match rule(items.last()) {
                Err(e) => Err(e),
                Ok(b) => Ok(done.push(b)),
            },
        }
    }
}

/// The state after `rule` took each item in order, or the failure on the first item on
/// which it fails.
pub open spec fn try_fold<S, A>(
    start: S,
    items: Seq<A>,
    rule: spec_fn(S, A) -> Result<S, Failure>,
) -> Result<S, Failure>
    decreases items.len(),
{
    if items.len() == 0 {
        Ok(start)
    } else {
        match try_fold(start, items.drop_last(), rule) {
            Err(e) => Err(e),
            Ok(s) => rule(s, items.last()),
        }
    }
}

/// One more item of a sequence.
pub proof fn lemma_try_map_step<A, B>(
    items: Seq<A>,
    i: int,
    rule: spec_fn(A) -> Result<B, Failure>,
)
    requires
        0 <= i < items.len(),
    ensures
        try_map(items.take(i + 1), rule) == (match try_map(items.take(i), rule) {
            Err(e) => Err(e),
            Ok(done) => match rule(items[i]) {
                Err(e) => Err(e),
                Ok(b) => Ok(done.push(b)),
            },
        }),
{
    assert(items.take(i + 1).drop_last() =~= items.take(i));
}

/// A failure among the first items is the failure of the whole sequence.
pub proof fn lemma_try_map_failure<A, B>(
    items: Seq<A>,
    i: int,
    rule: spec_fn(A) -> Result<B, Failure>,
)
    requires
        0 <= i <= items.len(),
        try_map(items.take(i), rule) is Err,
    ensures
        try_map(items, rule) == try_map(items.take(i), rule),
    decreases items.len() - i,
{
    if i < items.len() {
        lemma_try_map_step(items, i, rule);
        lemma_try_map_failure(items, i + 1, rule);
    } else {
        assert(items.take(i) =~= items);
    }
}

/// One more item of a sequence.
pub proof fn lemma_try_fold_step<S, A>(
    start: S,
    items: Seq<A>,
    i: int,
    rule: spec_fn(S, A) -> Result<S, Failure>,
)
    requires
        0 <= i < items.len(),
    ensures
        try_fold(start, items.take(i + 1), rule) == (match try_fold(start, items.take(i), rule) {
            Err(e) => Err(e),
            Ok(s) => rule(s, items[i]),
        }),
{
    assert(items.take(i + 1).drop_last() =~= items.take(i));
}

/// A failure among the first items is the failure of the whole sequence.
pub proof fn lemma_try_fold_failure<S, A>(
    start: S,
    items: Seq<A>,
    i: int,
    rule: spec_fn(S, A) -> Result<S, Failure>,
)
    requires
        0 <= i <= items.len(),
        try_fold(start, items.take(i), rule) is Err,
    ensures
        try_fold(start, items, rule) == try_fold(start, items.take(i), rule),
    decreases items.len() - i,
{
    if i < items.len() {
        lemma_try_fold_step(start, items, i, rule);
        lemma_try_fold_failure(start, items, i + 1, rule);
    } else {
        assert(items.take(i) =~= items);
    }
}

/// Where every item succeeds, each result comes from the item at its place.
pub proof fn lemma_try_map_items<A, B>(items: Seq<A>, rule: spec_fn(A) -> Result<B, Failure>)
    requires
        try_map(items, rule) is Ok,
    ensures
        try_map(items, rule)->Ok_0.len() == items.len(),
        forall|i: int|
            0 <= i < items.len() ==> rule(#[trigger] items[i]) == Ok::<B, Failure>(
                try_map(items, rule)->Ok_0[i],
            ),
    decreases items.len(),
{
    if items.len() > 0 {
        lemma_try_map_items(items.drop_last(), rule);
        assert forall|i: int| 0 <= i < items.len() implies rule(#[trigger] items[i]) == Ok::<
            B,
            Failure,
        >(try_map(items, rule)->Ok_0[i]) by {
            if i < items.len() - 1 {
                assert(items.drop_last()[i] == items[i]);
            }
        }
    }
}

/// A sequence fails as its first failing item does, and succeeds where no item fails.
pub proof fn law_the_first_failure_decides<A, B>(
    items: Seq<A>,
    rule: spec_fn(A) -> Result<B, Failure>,
    i: int,
)
    requires
        0 <= i <= items.len(),
        forall|j: int| 0 <= j < i ==> rule(#[trigger] items[j]) is Ok,
        i < items.len() ==> rule(items[i]) is Err,
    ensures
        i < items.len() ==> try_map(items, rule) == Err::<Seq<B>, Failure>(rule(items[i])->Err_0),
        i == items.len() ==> try_map(items, rule) is Ok,
{
    lemma_no_failure(items, rule, i);
    if i < items.len() {
        lemma_try_map_step(items, i, rule);
        lemma_try_map_failure(items, i + 1, rule);
    } else {
        assert(items.take(i) =~= items);
    }
}

proof fn lemma_no_failure<A, B>(items: Seq<A>, rule: spec_fn(A) -> Result<B, Failure>, i: int)
    requires
        0 <= i <= items.len(),
        forall|j: int| 0 <= j < i ==> rule(#[trigger] items[j]) is Ok,
    ensures
        try_map(items.take(i), rule) is Ok,
    decreases i,
{
    if i > 0 {
        lemma_no_failure(items, rule, i - 1);
        lemma_try_map_step(items, i - 1, rule);
        assert(rule(items[i - 1]) is Ok);
    }
}

/// Items are taken one after the other: what comes of a sequence is what comes of its
/// second part after its first part.
pub proof fn law_items_are_taken_one_after_the_other<S, A>(
    start: S,
    first: Seq<A>,
    second: Seq<A>,
    item: A,
    rule: spec_fn(S, A) -> Result<S, Failure>,
)
    ensures
        try_fold(start, Seq::<A>::empty(), rule) == Ok::<S, Failure>(start),
        try_fold(start, seq![item], rule) == rule(start, item),
        try_fold(start, first + second, rule) == (match try_fold(start, first, rule) {
            Ok(s) => try_fold(s, second, rule),
            Err(e) => Err(e),
        }),
    decreases second.len(),
{
    reveal_with_fuel(try_fold, 2);
    assert(seq![item].drop_last() =~= Seq::<A>::empty());
    if second.len() == 0 {
        assert(first + second =~= first);
    } else {
        assert((first + second).drop_last() =~= first + second.drop_last());
        law_items_are_taken_one_after_the_other(start, first, second.drop_last(), item, rule);
    }
}

} // verus!
