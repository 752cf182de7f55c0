//! Sequences without one value, and the first item that meets a condition.

use vstd::prelude::*;

verus! {

/// `s` with every `x` left out, the rest in order.
pub open spec fn without<T>(s: Seq<T>, x: T) -> Seq<T> {
    s.filter(|y: T| y != x)
}

/// One more item is left out or kept as the last.
pub proof fn lemma_without_push<T>(s: Seq<T>, x: T, y: T)
    ensures
        without(s.push(y), x) == if y == x {
            without(s, x)
        } else {
            without(s, x).push(y)
        },
{
    reveal(Seq::filter);
    assert(s.push(y).drop_last() =~= s);
}

/// What is left holds exactly the other items.
pub proof fn lemma_without_contains<T>(s: Seq<T>, x: T)
    ensures
        forall|y: T| #[trigger] without(s, x).contains(y) <==> s.contains(y) && y != x,
        s.no_duplicates() ==> without(s, x).no_duplicates(),
        without(s, x).len() <= s.len(),
    decreases s.len(),
{
    reveal(Seq::filter);
    if s.len() > 0 {
        let front = s.drop_last();
        let y = s.last();
        assert(s =~= front.push(y));
        lemma_without_push(front, x, y);
        lemma_without_contains(front, x);
        let rest = without(front, x);
        lemma_push_distinct(front, y);
        lemma_push_distinct(rest, y);
        if y != x {
            if s.no_duplicates() {
                assert(front.no_duplicates());
                assert(!front.contains(y)) by {
                    if front.contains(y) {
                        let i = choose|i: int| 0 <= i < front.len() && front[i] == y;
                        assert(s[i] == s[s.len() - 1]);
                    }
                }
                assert(!rest.contains(y));
            }
        } else if s.no_duplicates() {
            assert(front.no_duplicates());
        }
    }
}

/// One more distinct item.
pub proof fn lemma_push_distinct<T>(s: Seq<T>, x: T)
    ensures
        forall|y: T| #[trigger] s.push(x).contains(y) <==> s.contains(y) || y == x,
        s.no_duplicates() && !s.contains(x) ==> s.push(x).no_duplicates(),
{
    let after = s.push(x);
    assert forall|y: T| #[trigger] after.contains(y) <==> s.contains(y) || y == x by {
        if s.contains(y) {
            let i = choose|i: int| 0 <= i < s.len() && s[i] == y;
            assert(after[i] == y);
        }
        if y == x {
            assert(after[s.len() as int] == y);
        }
        if after.contains(y) {
            let i = choose|i: int| 0 <= i < after.len() && after[i] == y;
            if i < s.len() {
                assert(s[i] == y);
            }
        }
    }
    if s.no_duplicates() && !s.contains(x) {
        assert forall|i: int, j: int|
            0 <= i < after.len() && 0 <= j < after.len() && i != j implies after[i] != after[j] by {
            if i == s.len() {
                assert(s.contains(s[j]));
            } else if j == s.len() {
                assert(s.contains(s[i]));
            }
        }
    }
}

/// Whether `i` is the first position of `s` whose item meets `p`.
pub open spec fn is_first<T>(s: Seq<T>, p: spec_fn(T) -> bool, i: int) -> bool {
    &&& 0 <= i < s.len()
    &&& p(s[i])
    &&& forall|j: int| 0 <= j < i ==> !p(#[trigger] s[j])
}

/// The first position of `s` whose item meets `p`, if there is one.
pub open spec fn first_where<T>(s: Seq<T>, p: spec_fn(T) -> bool) -> Option<int> {
    if exists|i: int| is_first(s, p, i) {
        Some(choose|i: int| is_first(s, p, i))
    } else {
        None
    }
}

/// There is only one first position.
pub proof fn lemma_first_found<T>(s: Seq<T>, p: spec_fn(T) -> bool, i: int)
    requires
        is_first(s, p, i),
    ensures
        first_where(s, p) == Some(i),
{
    let k = choose|k: int| is_first(s, p, k);
    assert(is_first(s, p, k));
    if k < i {
        assert(!p(s[k]));
    } else if i < k {
        assert(!p(s[i]));
    }
}

/// Without an item that meets `p` there is no first position.
pub proof fn lemma_first_missing<T>(s: Seq<T>, p: spec_fn(T) -> bool)
    requires
        forall|i: int| 0 <= i < s.len() ==> !p(#[trigger] s[i]),
    ensures
        first_where(s, p) == None::<int>,
{
    if exists|i: int| is_first(s, p, i) {
        let i = choose|i: int| is_first(s, p, i);
        assert(!p(s[i]));
    }
}

/// Without a first position no item meets `p`.
pub proof fn lemma_first_none<T>(s: Seq<T>, p: spec_fn(T) -> bool)
    requires
        first_where(s, p) is None,
    ensures
        forall|i: int| 0 <= i < s.len() ==> !p(#[trigger] s[i]),
{
    assert forall|i: int| 0 <= i < s.len() implies !p(#[trigger] s[i]) by {
        if p(s[i]) {
            lemma_first_some(s, p, i);
        }
    }
}

proof fn lemma_first_some<T>(s: Seq<T>, p: spec_fn(T) -> bool, i: int)
    requires
        0 <= i < s.len(),
        p(s[i]),
    ensures
        first_where(s, p) is Some,
    decreases i,
{
    if forall|j: int| 0 <= j < i ==> !p(#[trigger] s[j]) {
        assert(is_first(s, p, i));
    } else {
        let j = choose|j: int| 0 <= j < i && p(#[trigger] s[j]);
        lemma_first_some(s, p, j);
    }
}

} // verus!
