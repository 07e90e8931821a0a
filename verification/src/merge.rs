//! Set-like merging of ordered lists: what a merge adds, what it leaves
//! alone, and when one list covers another.

use vstd::prelude::*;
use crate::text::same_text;

verus! {

/// `acc` followed by the items of `extra` that it lacks, each once, in the
/// order in which `extra` first names them.
pub open spec fn append_new<A>(acc: Seq<A>, extra: Seq<A>) -> Seq<A>
    decreases extra.len(),
{
    if extra.len() == 0 {
        acc
    } else if acc.contains(extra[0]) {
        append_new(acc, extra.drop_first())
    } else {
        append_new(acc.push(extra[0]), extra.drop_first())
    }
}

/// The items of a list, each once, in the order in which the list first
/// names them.
pub open spec fn distinct<A>(list: Seq<A>) -> Seq<A> {
    append_new(Seq::empty(), list)
}

/// The union of two lists without repeats: the items of `first`, each
/// once, followed by the items that only `second` holds, each once, all in
/// the order in which they are first named.
pub open spec fn union_of<A>(first: Seq<A>, second: Seq<A>) -> Seq<A> {
    append_new(distinct(first), second)
}

/// The items of `new` that `old` lacks, in the order of `new`.
pub open spec fn diff_new<A>(old: Seq<A>, new: Seq<A>) -> Seq<A> {
    new.filter(|x: A| !old.contains(x))
}

/// Whether `have` holds every item of `want`.
pub open spec fn covers<A>(have: Seq<A>, want: Seq<A>) -> bool {
    forall|i: int| 0 <= i < want.len() ==> have.contains(#[trigger] want[i])
}

/// A merge keeps what was there, in place, and only appends.
pub proof fn lemma_append_new_keeps<A>(acc: Seq<A>, extra: Seq<A>)
    ensures
        acc.len() <= append_new(acc, extra).len(),
        append_new(acc, extra).take(acc.len() as int) == acc,
    decreases extra.len(),
{
    if extra.len() == 0 {
        assert(acc.take(acc.len() as int) =~= acc);
    } else if acc.contains(extra[0]) {
        lemma_append_new_keeps(acc, extra.drop_first());
    } else {
        let grown = acc.push(extra[0]);
        lemma_append_new_keeps(grown, extra.drop_first());
        let all = append_new(grown, extra.drop_first());
        assert(all.take(acc.len() as int) =~= all.take(grown.len() as int).take(acc.len() as int));
        assert(grown.take(acc.len() as int) =~= acc);
    }
}

/// A merge holds exactly what either list held.
pub proof fn lemma_append_new_contains<A>(acc: Seq<A>, extra: Seq<A>, x: A)
    ensures
        append_new(acc, extra).contains(x) <==> acc.contains(x) || extra.contains(x),
    decreases extra.len(),
{
    if extra.len() > 0 {
        let rest = extra.drop_first();
        assert(extra.contains(x) <==> x == extra[0] || rest.contains(x)) by {
            if extra.contains(x) {
                let i = choose|i: int| 0 <= i < extra.len() && extra[i] == x;
                if i > 0 {
                    assert(rest[i - 1] == x);
                }
            }
            if rest.contains(x) {
                let i = choose|i: int| 0 <= i < rest.len() && rest[i] == x;
                assert(extra[i + 1] == x);
            }
            assert(extra[0] == extra[0]);
        }
        if acc.contains(extra[0]) {
            lemma_append_new_contains(acc, rest, x);
        } else {
            let grown = acc.push(extra[0]);
            lemma_append_new_contains(grown, rest, x);
            assert(grown.contains(x) <==> acc.contains(x) || x == extra[0]) by {
                if grown.contains(x) {
                    let i = choose|i: int| 0 <= i < grown.len() && grown[i] == x;
                    if i < acc.len() {
                        assert(acc[i] == x);
                    }
                }
                if acc.contains(x) {
                    let i = choose|i: int| 0 <= i < acc.len() && acc[i] == x;
                    assert(grown[i] == x);
                }
                assert(grown[acc.len() as int] == extra[0]);
            }
        }
    }
}

/// Merging in what is already covered changes nothing, and only that.
pub proof fn lemma_append_new_noop<A>(acc: Seq<A>, extra: Seq<A>)
    ensures
        covers(acc, extra) <==> append_new(acc, extra) == acc,
    decreases extra.len(),
{
    if extra.len() > 0 {
        let rest = extra.drop_first();
        if acc.contains(extra[0]) {
            lemma_append_new_noop(acc, rest);
            if covers(acc, extra) {
                assert forall|i: int| 0 <= i < rest.len() implies acc.contains(
                    #[trigger] rest[i],
                ) by {
                    assert(rest[i] == extra[i + 1]);
                }
            }
            if covers(acc, rest) {
                assert forall|i: int| 0 <= i < extra.len() implies acc.contains(
                    #[trigger] extra[i],
                ) by {
                    if i > 0 {
                        assert(extra[i] == rest[i - 1]);
                    }
                }
            }
        } else {
            lemma_append_new_keeps(acc.push(extra[0]), rest);
        }
    }
}

/// Merging the same list in a second time changes nothing.
pub proof fn lemma_append_new_idempotent<A>(acc: Seq<A>, extra: Seq<A>)
    ensures
        append_new(append_new(acc, extra), extra) == append_new(acc, extra),
{
    let once = append_new(acc, extra);
    assert forall|i: int| 0 <= i < extra.len() implies once.contains(#[trigger] extra[i]) by {
        lemma_append_new_contains(acc, extra, extra[i]);
    }
    lemma_append_new_noop(once, extra);
}

/// What covers a list still covers it after a merge.
pub proof fn lemma_covers_after_merge<A>(have: Seq<A>, want: Seq<A>, extra: Seq<A>)
    requires
        covers(have, want),
    ensures
        covers(append_new(have, extra), want),
{
    assert forall|i: int| 0 <= i < want.len() implies append_new(have, extra).contains(
        #[trigger] want[i],
    ) by {
        lemma_append_new_contains(have, extra, want[i]);
    }
}

/// A merge into a list without repeats has no repeats.
pub proof fn lemma_append_new_distinct<A>(acc: Seq<A>, extra: Seq<A>)
    requires
        acc.no_duplicates(),
    ensures
        append_new(acc, extra).no_duplicates(),
    decreases extra.len(),
{
    if extra.len() > 0 {
        if acc.contains(extra[0]) {
            lemma_append_new_distinct(acc, extra.drop_first());
        } else {
            let grown = acc.push(extra[0]);
            assert forall|i: int, j: int| 0 <= i < grown.len() && 0 <= j < grown.len() && i
                != j implies grown[i] != grown[j] by {
                if i < acc.len() && j < acc.len() {
                } else if i < acc.len() {
                    assert(acc.contains(acc[i]));
                } else {
                    assert(acc.contains(acc[j]));
                }
            }
            lemma_append_new_distinct(grown, extra.drop_first());
        }
    }
}

/// Appending a list without repeats to a list that holds none of its
/// items just puts the two together.
pub proof fn lemma_append_new_apart<A>(acc: Seq<A>, extra: Seq<A>)
    requires
        extra.no_duplicates(),
        forall|i: int| 0 <= i < extra.len() ==> !acc.contains(#[trigger] extra[i]),
    ensures
        append_new(acc, extra) == acc + extra,
    decreases extra.len(),
{
    if extra.len() == 0 {
        assert(acc + extra =~= acc);
    } else {
        let grown = acc.push(extra[0]);
        let rest = extra.drop_first();
        assert forall|i: int| 0 <= i < rest.len() implies !grown.contains(#[trigger] rest[i]) by {
            assert(rest[i] == extra[i + 1]);
            if grown.contains(rest[i]) {
                let k = choose|k: int| 0 <= k < grown.len() && grown[k] == rest[i];
                if k < acc.len() {
                    assert(acc.contains(acc[k]));
                }
            }
        }
        assert forall|i: int, j: int| 0 <= i < rest.len() && 0 <= j < rest.len() && i
            != j implies rest[i] != rest[j] by {
            assert(rest[i] == extra[i + 1] && rest[j] == extra[j + 1]);
        }
        lemma_append_new_apart(grown, rest);
        assert(grown + rest =~= acc + extra);
    }
}

/// A list without repeats holds each of its items once already.
pub proof fn lemma_distinct_of_set<A>(list: Seq<A>)
    requires
        list.no_duplicates(),
    ensures
        distinct(list) == list,
{
    lemma_append_new_apart(Seq::<A>::empty(), list);
    assert(Seq::<A>::empty() + list =~= list);
}

/// The items of a list are those of the list it was made distinct from.
pub proof fn lemma_distinct<A>(list: Seq<A>)
    ensures
        distinct(list).no_duplicates(),
        forall|x: A| #[trigger] distinct(list).contains(x) <==> list.contains(x),
{
    lemma_append_new_distinct(Seq::<A>::empty(), list);
    assert forall|x: A| #[trigger] distinct(list).contains(x) <==> list.contains(x) by {
        lemma_append_new_contains(Seq::<A>::empty(), list, x);
    }
}

/// A union holds nothing twice, and holds exactly what either list held.
pub proof fn lemma_union_of<A>(first: Seq<A>, second: Seq<A>)
    ensures
        union_of(first, second).no_duplicates(),
        forall|x: A| #[trigger]
            union_of(first, second).contains(x) <==> first.contains(x) || second.contains(x),
{
    lemma_distinct(first);
    lemma_append_new_distinct(distinct(first), second);
    assert forall|x: A| #[trigger]
        union_of(first, second).contains(x) <==> first.contains(x) || second.contains(x) by {
        lemma_append_new_contains(distinct(first), second, x);
    }
}

/// The union with a list that holds nothing twice keeps that list in
/// place and only appends.
pub proof fn lemma_union_of_set<A>(first: Seq<A>, second: Seq<A>)
    requires
        first.no_duplicates(),
    ensures
        union_of(first, second) == append_new(first, second),
{
    lemma_distinct_of_set(first);
}

/// Uniting with the same list a second time changes nothing.
pub proof fn lemma_union_of_idempotent<A>(first: Seq<A>, second: Seq<A>)
    ensures
        union_of(union_of(first, second), second) == union_of(first, second),
{
    let once = union_of(first, second);
    lemma_union_of(first, second);
    lemma_distinct_of_set(once);
    assert forall|i: int| 0 <= i < second.len() implies once.contains(#[trigger] second[i]) by {
        assert(second.contains(second[i]));
    }
    lemma_append_new_noop(once, second);
}

/// What covers a list still covers it after a union.
pub proof fn lemma_covers_after_union<A>(have: Seq<A>, want: Seq<A>, extra: Seq<A>)
    requires
        covers(have, want),
    ensures
        covers(union_of(have, extra), want),
{
    lemma_union_of(have, extra);
}

/// A union adds nothing to the first list exactly when the first list
/// covers the second.
pub proof fn lemma_union_of_adds<A>(first: Seq<A>, second: Seq<A>)
    ensures
        covers(first, second) <==> union_of(first, second) == distinct(first),
{
    lemma_distinct(first);
    lemma_append_new_noop(distinct(first), second);
    assert(covers(first, second) <==> covers(distinct(first), second)) by {
        if covers(first, second) {
            assert forall|i: int| 0 <= i < second.len() implies distinct(first).contains(
                #[trigger] second[i],
            ) by {
                assert(first.contains(second[i]));
            }
        }
        if covers(distinct(first), second) {
            assert forall|i: int| 0 <= i < second.len() implies first.contains(
                #[trigger] second[i],
            ) by {
                assert(distinct(first).contains(second[i]));
            }
        }
    }
}

/// Nothing is new exactly when everything is covered.
pub proof fn lemma_diff_new_empty<A>(old: Seq<A>, new: Seq<A>)
    ensures
        diff_new(old, new).len() == 0 <==> covers(old, new),
{
    let absent = |x: A| !old.contains(x);
    let fresh = diff_new(old, new);
    if fresh.len() == 0 {
        assert forall|i: int| 0 <= i < new.len() implies old.contains(#[trigger] new[i]) by {
            if absent(new[i]) {
                new.lemma_filter_contains(absent, i);
            }
        }
    }
    if covers(old, new) && fresh.len() > 0 {
        let x = fresh[0];
        new.lemma_filter_pred(absent, 0);
        assert(fresh.contains(x));
        new.lemma_filter_contains_rev(absent, x);
        let i = choose|i: int| 0 <= i < new.len() && new[i] == x;
        assert(old.contains(new[i]));
    }
}

/// Whether the list holds the text.
pub fn list_contains(list: &Vec<String>, item: &str) -> (r: bool)
    ensures
        r == list.deep_view().contains(item@),
{
    let mut i: usize = 0;
    while i < list.len()
        invariant
            0 <= i <= list@.len(),
            forall|k: int| 0 <= k < i ==> list.deep_view()[k] != item@,
        decreases list@.len() - i,
    {
        if same_text(list[i].as_str(), item) {
            assert(list.deep_view()[i as int] == item@);
            return true;
        }
        i = i + 1;
    }
    false
}

/// A copy of the list.
pub fn clone_list(list: &Vec<String>) -> (r: Vec<String>)
    ensures
        r.deep_view() == list.deep_view(),
{
    let mut r: Vec<String> = Vec::new();
    let mut i: usize = 0;
    while i < list.len()
        invariant
            0 <= i <= list@.len(),
            r@.len() == i,
            forall|k: int| 0 <= k < i ==> #[trigger] r@[k]@ == list@[k]@,
        decreases list@.len() - i,
    {
        r.push(list[i].clone());
        i = i + 1;
    }
    assert(r.deep_view() =~= list.deep_view());
    r
}

/// The items of `new` that `old` lacks, in the order of `new`.
pub fn check_for_new(old: &Vec<String>, new: &Vec<String>) -> (r: Vec<String>)
    ensures
        r.deep_view() == diff_new(old.deep_view(), new.deep_view()),
{
    let mut r: Vec<String> = Vec::new();
    let mut i: usize = 0;
    let ghost absent = |x: Seq<char>| !old.deep_view().contains(x);
    proof {
        assert(new.deep_view().take(0) =~= Seq::<Seq<char>>::empty());
        reveal_with_fuel(Seq::filter, 1);
        assert(r.deep_view() =~= new.deep_view().take(0).filter(absent));
    }
    while i < new.len()
        invariant
            0 <= i <= new@.len(),
            absent == |x: Seq<char>| !old.deep_view().contains(x),
            r.deep_view() == new.deep_view().take(i as int).filter(absent),
        decreases new@.len() - i,
    {
        let ghost seen = new.deep_view().take(i as int);
        let ghost kept = r.deep_view();
        proof {
            assert(new.deep_view().take(i + 1) =~= seen.push(new@[i as int]@));
            seen.lemma_filter_push(new@[i as int]@, absent);
        }
        if !list_contains(old, new[i].as_str()) {
            r.push(new[i].clone());
            assert(r.deep_view() =~= kept.push(new@[i as int]@));
        }
        i = i + 1;
    }
    assert(new.deep_view().take(new@.len() as int) =~= new.deep_view());
    r
}

/// Appends to `list` the items of `extra` that it lacks, and reports
/// whether anything was appended.
fn append_missing(list: &mut Vec<String>, extra: &Vec<String>) -> (changed: bool)
    ensures
        final(list).deep_view() == append_new(old(list).deep_view(), extra.deep_view()),
        changed == !covers(old(list).deep_view(), extra.deep_view()),
{
    let mut changed = false;
    let mut i: usize = 0;
    proof {
        assert(extra.deep_view().skip(0) =~= extra.deep_view());
        lemma_append_new_noop(list.deep_view(), extra.deep_view());
    }
    while i < extra.len()
        invariant
            0 <= i <= extra@.len(),
            append_new(list.deep_view(), extra.deep_view().skip(i as int)) == append_new(
                old(list).deep_view(),
                extra.deep_view(),
            ),
            changed == (list.deep_view() != old(list).deep_view()),
            old(list).deep_view().len() <= list.deep_view().len(),
            list.deep_view().take(old(list).deep_view().len() as int) == old(list).deep_view(),
        decreases extra@.len() - i,
    {
        let ghost rest = extra.deep_view().skip(i as int);
        let ghost held = list.deep_view();
        proof {
            assert(rest.drop_first() =~= extra.deep_view().skip(i + 1));
            assert(rest[0] == extra@[i as int]@);
        }
        if !list_contains(list, extra[i].as_str()) {
            list.push(extra[i].clone());
            proof {
                assert(list.deep_view() =~= held.push(rest[0]));
                assert(list.deep_view().take(old(list).deep_view().len() as int) =~= held.take(
                    old(list).deep_view().len() as int,
                ));
            }
            changed = true;
        }
        i = i + 1;
    }
    proof {
        assert(extra.deep_view().skip(extra@.len() as int) =~= Seq::<Seq<char>>::empty());
    }
    changed
}

/// The items of a list, each once, in the order in which the list first
/// names them.
pub fn distinct_list(list: &Vec<String>) -> (r: Vec<String>)
    ensures
        r.deep_view() == distinct(list.deep_view()),
        r.deep_view().no_duplicates(),
        forall|x: Seq<char>| #[trigger] r.deep_view().contains(x) <==> list.deep_view().contains(x),
{
    let mut r: Vec<String> = Vec::new();
    assert(r.deep_view() =~= Seq::<Seq<char>>::empty());
    append_missing(&mut r, list);
    proof {
        lemma_distinct(list.deep_view());
    }
    r
}

/// The union of two lists without repeats.
pub fn union_lists(first: &Vec<String>, second: &Vec<String>) -> (r: Vec<String>)
    ensures
        r.deep_view() == union_of(first.deep_view(), second.deep_view()),
        r.deep_view().no_duplicates(),
        forall|x: Seq<char>| #[trigger]
            r.deep_view().contains(x) <==> first.deep_view().contains(x)
                || second.deep_view().contains(x),
{
    let mut r: Vec<String> = Vec::new();
    assert(r.deep_view() =~= Seq::<Seq<char>>::empty());
    append_missing(&mut r, first);
    append_missing(&mut r, second);
    proof {
        lemma_union_of(first.deep_view(), second.deep_view());
    }
    r
}

/// Makes `list` the union of itself and `extra`, without repeats, and
/// reports whether `extra` held anything that `list` lacked.
pub fn merge_into(list: &mut Vec<String>, extra: &Vec<String>) -> (changed: bool)
    ensures
        final(list).deep_view() == union_of(old(list).deep_view(), extra.deep_view()),
        changed == !covers(old(list).deep_view(), extra.deep_view()),
{
    let mut merged: Vec<String> = Vec::new();
    assert(merged.deep_view() =~= Seq::<Seq<char>>::empty());
    append_missing(&mut merged, list);
    let changed = append_missing(&mut merged, extra);
    proof {
        lemma_union_of_adds(list.deep_view(), extra.deep_view());
        lemma_append_new_noop(distinct(list.deep_view()), extra.deep_view());
    }
    *list = merged;
    changed
}

/// Whether `have` holds every item of `want`.
pub fn list_covers(have: &Vec<String>, want: &Vec<String>) -> (r: bool)
    ensures
        r == covers(have.deep_view(), want.deep_view()),
{
    let mut i: usize = 0;
    while i < want.len()
        invariant
            0 <= i <= want@.len(),
            forall|k: int| 0 <= k < i ==> have.deep_view().contains(#[trigger] want.deep_view()[k]),
        decreases want@.len() - i,
    {
        if !list_contains(have, want[i].as_str()) {
            assert(!have.deep_view().contains(want.deep_view()[i as int]));
            return false;
        }
        i = i + 1;
    }
    true
}

/// Whether two lists hold the same items, whatever their order and number.
pub fn same_set(a: &Vec<String>, b: &Vec<String>) -> (r: bool)
    ensures
        r == (a.deep_view().to_set() == b.deep_view().to_set()),
{
    let r = list_covers(a, b) && list_covers(b, a);
    proof {
        let x = a.deep_view();
        let y = b.deep_view();
        if r {
            assert forall|t: Seq<char>| x.to_set().contains(t) <==> y.to_set().contains(t) by {
                if x.contains(t) {
                    let i = choose|i: int| 0 <= i < x.len() && x[i] == t;
                    assert(y.contains(x[i]));
                }
                if y.contains(t) {
                    let i = choose|i: int| 0 <= i < y.len() && y[i] == t;
                    assert(x.contains(y[i]));
                }
            }
            assert(x.to_set() =~= y.to_set());
        }
        if x.to_set() == y.to_set() {
            assert forall|i: int| 0 <= i < y.len() implies x.contains(#[trigger] y[i]) by {
                assert(y.to_set().contains(y[i]));
            }
            assert forall|i: int| 0 <= i < x.len() implies y.contains(#[trigger] x[i]) by {
                assert(x.to_set().contains(x[i]));
            }
        }
    }
    r
}

/// How often the text occurs in the list.
fn occurrences(list: &Vec<String>, item: &str) -> (n: usize)
    ensures
        n == list.deep_view().to_multiset().count(item@),
{
    let mut n: usize = 0;
    let mut i: usize = 0;
    proof {
        assert(list.deep_view().take(0) =~= Seq::<Seq<char>>::empty());
        vstd::seq_lib::to_multiset_len(Seq::<Seq<char>>::empty());
        assert(Seq::<Seq<char>>::empty().to_multiset().count(item@) == 0) by {
            let m = Seq::<Seq<char>>::empty().to_multiset();
            if m.count(item@) > 0 {
                vstd::seq_lib::to_multiset_contains(Seq::<Seq<char>>::empty(), item@);
            }
        }
    }
    while i < list.len()
        invariant
            0 <= i <= list@.len(),
            n <= i,
            n == list.deep_view().take(i as int).to_multiset().count(item@),
        decreases list@.len() - i,
    {
        proof {
            let seen = list.deep_view().take(i as int);
            assert(list.deep_view().take(i + 1) =~= seen.push(list@[i as int]@));
            vstd::seq_lib::to_multiset_build(seen, list@[i as int]@);
        }
        if same_text(list[i].as_str(), item) {
            n = n + 1;
        }
        i = i + 1;
    }
    assert(list.deep_view().take(list@.len() as int) =~= list.deep_view());
    n
}

/// Whether every item of `a` occurs as often in `b` as in `a`.
fn counts_agree(a: &Vec<String>, b: &Vec<String>) -> (r: bool)
    ensures
        r == (forall|i: int|
            0 <= i < a.deep_view().len() ==> a.deep_view().to_multiset().count(
                #[trigger] a.deep_view()[i],
            ) == b.deep_view().to_multiset().count(a.deep_view()[i])),
{
    let mut i: usize = 0;
    while i < a.len()
        invariant
            0 <= i <= a@.len(),
            forall|k: int|
                0 <= k < i ==> a.deep_view().to_multiset().count(#[trigger] a.deep_view()[k])
                    == b.deep_view().to_multiset().count(a.deep_view()[k]),
        decreases a@.len() - i,
    {
        if occurrences(a, a[i].as_str()) != occurrences(b, a[i].as_str()) {
            assert(a.deep_view()[i as int] == a@[i as int]@);
            return false;
        }
        i = i + 1;
    }
    true
}

/// Whether two lists hold the same items equally often, in any order.
pub fn same_items(a: &Vec<String>, b: &Vec<String>) -> (r: bool)
    ensures
        r == (a.deep_view().to_multiset() == b.deep_view().to_multiset()),
{
    let r = counts_agree(a, b) && counts_agree(b, a);
    proof {
        let x = a.deep_view();
        let y = b.deep_view();
        if r {
            assert forall|t: Seq<char>| x.to_multiset().count(t) == y.to_multiset().count(t) by {
                vstd::seq_lib::to_multiset_contains(x, t);
                vstd::seq_lib::to_multiset_contains(y, t);
                if x.contains(t) {
                    let i = choose|i: int| 0 <= i < x.len() && x[i] == t;
                    assert(x.to_multiset().count(x[i]) == y.to_multiset().count(x[i]));
                } else if y.contains(t) {
                    let i = choose|i: int| 0 <= i < y.len() && y[i] == t;
                    assert(y.to_multiset().count(y[i]) == x.to_multiset().count(y[i]));
                }
            }
            assert(x.to_multiset() =~= y.to_multiset());
        }
    }
    r
}

/// Whether two lists hold the same texts in the same order.
pub fn same_list(a: &Vec<String>, b: &Vec<String>) -> (r: bool)
    ensures
        r == (a.deep_view() == b.deep_view()),
{
    if a.len() != b.len() {
        assert(a.deep_view().len() != b.deep_view().len());
        return false;
    }
    let mut i: usize = 0;
    while i < a.len()
        invariant
            0 <= i <= a@.len(),
            a@.len() == b@.len(),
            forall|k: int| 0 <= k < i ==> a.deep_view()[k] == b.deep_view()[k],
        decreases a@.len() - i,
    {
        if !same_text(a[i].as_str(), b[i].as_str()) {
            assert(a.deep_view()[i as int] != b.deep_view()[i as int]);
            return false;
        }
        i = i + 1;
    }
    assert(a.deep_view() =~= b.deep_view());
    true
}

} // verus!
