//! Putting rows in their listing order, and cutting the listing short.

use vstd::prelude::*;
use crate::item::{rows, Row, ScanItem};
use crate::order::{
    compare_items, lemma_row_flip, lemma_row_same, lemma_row_transitive, row_relation, Relation,
    SortBy,
};

verus! {

/// No row of `items` comes after a later one in the listing chosen by
/// `sort`.
pub open spec fn in_order(items: Seq<Row>, sort: SortBy) -> bool {
    forall|i: int, j: int|
        #![trigger items[i], items[j]]
        0 <= i < j < items.len() ==> row_relation(items[i], items[j], sort) != Relation::After
}

/// The test that picks the rows standing level with `row`.
pub open spec fn stands_level(row: Row, sort: SortBy) -> spec_fn(Row) -> bool {
    |x: Row| row_relation(x, row, sort) == Relation::Same
}

/// The rows of `items` that stand level with `row`, in the order in which
/// `items` holds them.
pub open spec fn level_with(items: Seq<Row>, row: Row, sort: SortBy) -> Seq<Row> {
    items.filter(stands_level(row, sort))
}

/// `after` is `before` put in order without disturbing rows that stand
/// level: it is in order, it holds the same rows as often, and whatever
/// stands level keeps the order it had.
pub open spec fn is_stable_sort_of(
    after: Seq<Row>,
    before: Seq<Row>,
    sort: SortBy,
) -> bool {
    &&& in_order(after, sort)
    &&& after.to_multiset() == before.to_multiset()
    &&& forall|row: Row| #[trigger] level_with(after, row, sort) == level_with(before, row, sort)
}

/// The rows of `items` in the listing order chosen by `sort`, those that
/// stand level in the order in which `items` holds them.
pub open spec fn sorted_rows(items: Seq<Row>, sort: SortBy) -> Seq<Row> {
    choose|after: Seq<Row>| is_stable_sort_of(after, items, sort)
}

/// The first `limit` items of `items`, or all of them where there are no
/// more than that, or where there is no limit.
pub open spec fn limited<T>(items: Seq<T>, limit: Option<usize>) -> Seq<T> {
    match limit {
        Some(n) => if n < items.len() {
            items.subrange(0, n as int)
        } else {
            items
        },
        None => items,
    }
}

/// Two runs, each in order, woven into one: the larger of the two last
/// items goes last, and between two that stand level the one of `b`.
spec fn merged(a: Seq<Row>, b: Seq<Row>, sort: SortBy) -> Seq<Row>
    decreases a.len() + b.len(),
{
    if a.len() == 0 {
        b
    } else if b.len() == 0 {
        a
    } else if row_relation(a.last(), b.last(), sort) == Relation::After {
        merged(a.drop_last(), b, sort).push(a.last())
    } else {
        merged(a, b.drop_last(), sort).push(b.last())
    }
}

/// The two halves of `s`, each arranged, woven into one.
spec fn arranged(s: Seq<Row>, sort: SortBy) -> Seq<Row>
    decreases s.len(),
{
    if s.len() < 2 {
        s
    } else {
        let mid = s.len() as int / 2;
        merged(
            arranged(s.subrange(0, mid), sort),
            arranged(s.subrange(mid, s.len() as int), sort),
            sort,
        )
    }
}

/// Nothing in `items` comes after `top`.
spec fn capped(items: Seq<Row>, top: Row, sort: SortBy) -> bool {
    forall|i: int|
        0 <= i < items.len() ==> row_relation(#[trigger] items[i], top, sort) != Relation::After
}

proof fn lemma_merged_capped(a: Seq<Row>, b: Seq<Row>, top: Row, sort: SortBy)
    requires
        capped(a, top, sort),
        capped(b, top, sort),
    ensures
        capped(merged(a, b, sort), top, sort),
        merged(a, b, sort).len() == a.len() + b.len(),
    decreases a.len() + b.len(),
{
    if a.len() == 0 || b.len() == 0 {
    } else if row_relation(a.last(), b.last(), sort) == Relation::After {
        lemma_merged_capped(a.drop_last(), b, top, sort);
    } else {
        lemma_merged_capped(a, b.drop_last(), top, sort);
    }
}

proof fn lemma_last_caps(s: Seq<Row>, top: Row, sort: SortBy)
    requires
        in_order(s, sort),
        s.len() > 0,
        row_relation(s.last(), top, sort) != Relation::After,
    ensures
        capped(s, top, sort),
{
    assert forall|i: int| 0 <= i < s.len() implies row_relation(#[trigger] s[i], top, sort)
        != Relation::After by {
        if i < s.len() - 1 {
            assert(row_relation(s[i], s[s.len() - 1], sort) != Relation::After);
            lemma_row_transitive(s[i], s.last(), top, sort);
        }
    }
}

proof fn lemma_merged_in_order(a: Seq<Row>, b: Seq<Row>, sort: SortBy)
    requires
        in_order(a, sort),
        in_order(b, sort),
    ensures
        in_order(merged(a, b, sort), sort),
    decreases a.len() + b.len(),
{
    if a.len() == 0 || b.len() == 0 {
    } else {
        lemma_row_flip(a.last(), b.last(), sort);
        lemma_row_same(a.last(), a.last(), sort);
        lemma_row_same(b.last(), b.last(), sort);
        if row_relation(a.last(), b.last(), sort) == Relation::After {
            let rest = merged(a.drop_last(), b, sort);
            lemma_merged_in_order(a.drop_last(), b, sort);
            lemma_last_caps(a, a.last(), sort);
            lemma_last_caps(b, a.last(), sort);
            lemma_merged_capped(a.drop_last(), b, a.last(), sort);
            assert(in_order(rest.push(a.last()), sort));
        } else {
            let rest = merged(a, b.drop_last(), sort);
            lemma_merged_in_order(a, b.drop_last(), sort);
            lemma_last_caps(a, b.last(), sort);
            lemma_last_caps(b, b.last(), sort);
            lemma_merged_capped(a, b.drop_last(), b.last(), sort);
            assert(in_order(rest.push(b.last()), sort));
        }
    }
}

proof fn lemma_merged_multiset(a: Seq<Row>, b: Seq<Row>, sort: SortBy)
    ensures
        merged(a, b, sort).to_multiset() == a.to_multiset().add(b.to_multiset()),
    decreases a.len() + b.len(),
{
    broadcast use vstd::seq_lib::to_multiset_build;
    broadcast use vstd::multiset::group_multiset_axioms;

    if a.len() == 0 {
        assert(a + b =~= b);
        vstd::seq_lib::lemma_multiset_commutative(a, b);
    } else if b.len() == 0 {
        assert(a + b =~= a);
        vstd::seq_lib::lemma_multiset_commutative(a, b);
    } else if row_relation(a.last(), b.last(), sort) == Relation::After {
        lemma_merged_multiset(a.drop_last(), b, sort);
        assert(a =~= a.drop_last().push(a.last()));
        assert(merged(a, b, sort).to_multiset() =~= a.to_multiset().add(b.to_multiset()));
    } else {
        lemma_merged_multiset(a, b.drop_last(), sort);
        assert(b =~= b.drop_last().push(b.last()));
        assert(merged(a, b, sort).to_multiset() =~= a.to_multiset().add(b.to_multiset()));
    }
}

/// Below an item that comes strictly after the last of an ordered run,
/// nothing of the run stands level with what that item stands level with.
proof fn lemma_none_level(s: Seq<Row>, above: Row, row: Row, sort: SortBy)
    requires
        in_order(s, sort),
        s.len() > 0,
        row_relation(s.last(), above, sort) == Relation::Before,
        row_relation(above, row, sort) == Relation::Same,
    ensures
        level_with(s, row, sort) == Seq::<Row>::empty(),
{
    let pred = stands_level(row, sort);
    assert forall|i: int| 0 <= i < s.len() implies !pred(#[trigger] s[i]) by {
        lemma_row_same(above, row, sort);
        lemma_row_same(s[i], row, sort);
        lemma_row_same(s[i], above, sort);
        lemma_row_same(s.last(), s.last(), sort);
        if i < s.len() - 1 {
            assert(row_relation(s[i], s[s.len() - 1], sort) != Relation::After);
        }
        lemma_row_transitive(s[i], s.last(), above, sort);
    }
    s.lemma_all_neg_filter_empty(pred);
}

proof fn lemma_merged_level(a: Seq<Row>, b: Seq<Row>, row: Row, sort: SortBy)
    requires
        in_order(a, sort),
        in_order(b, sort),
    ensures
        level_with(merged(a, b, sort), row, sort) == level_with(a, row, sort) + level_with(
            b,
            row,
            sort,
        ),
    decreases a.len() + b.len(),
{
    let pred = stands_level(row, sort);
    if a.len() == 0 {
        assert(a.filter(pred) =~= Seq::<Row>::empty()) by {
            a.lemma_all_neg_filter_empty(pred);
        }
        assert(b.filter(pred) =~= a.filter(pred) + b.filter(pred));
    } else if b.len() == 0 {
        assert(b.filter(pred) =~= Seq::<Row>::empty()) by {
            b.lemma_all_neg_filter_empty(pred);
        }
        assert(a.filter(pred) =~= a.filter(pred) + b.filter(pred));
    } else if row_relation(a.last(), b.last(), sort) == Relation::After {
        let rest = merged(a.drop_last(), b, sort);
        lemma_merged_level(a.drop_last(), b, row, sort);
        rest.lemma_filter_push(a.last(), pred);
        a.drop_last().lemma_filter_push(a.last(), pred);
        assert(a =~= a.drop_last().push(a.last()));
        if pred(a.last()) {
            lemma_row_flip(a.last(), b.last(), sort);
            lemma_none_level(b, a.last(), row, sort);
            assert(rest.push(a.last()).filter(pred) =~= a.filter(pred) + b.filter(pred));
        }
    } else {
        let rest = merged(a, b.drop_last(), sort);
        lemma_merged_level(a, b.drop_last(), row, sort);
        rest.lemma_filter_push(b.last(), pred);
        b.drop_last().lemma_filter_push(b.last(), pred);
        assert(b =~= b.drop_last().push(b.last()));
        assert(rest.push(b.last()).filter(pred) =~= a.filter(pred) + b.filter(pred));
    }
}

proof fn lemma_arranged(s: Seq<Row>, sort: SortBy)
    ensures
        is_stable_sort_of(arranged(s, sort), s, sort),
    decreases s.len(),
{
    if s.len() >= 2 {
        let mid = s.len() as int / 2;
        let front = s.subrange(0, mid);
        let back = s.subrange(mid, s.len() as int);
        lemma_arranged(front, sort);
        lemma_arranged(back, sort);
        let a = arranged(front, sort);
        let b = arranged(back, sort);
        assert(s =~= front + back);
        lemma_merged_in_order(a, b, sort);
        lemma_merged_multiset(a, b, sort);
        vstd::seq_lib::lemma_multiset_commutative(front, back);
        assert forall|row: Row| #[trigger]
            level_with(arranged(s, sort), row, sort) == level_with(s, row, sort) by {
            lemma_merged_level(a, b, row, sort);
            Seq::filter_distributes_over_add(front, back, stands_level(row, sort));
            assert(level_with(a, row, sort) == level_with(front, row, sort));
            assert(level_with(b, row, sort) == level_with(back, row, sort));
        }
    }
}

/// Two arrangements that are both in order, hold the same rows as often
/// and keep what stands level in the same order are one and the same.
proof fn lemma_same_arrangement(x: Seq<Row>, y: Seq<Row>, sort: SortBy)
    requires
        in_order(x, sort),
        in_order(y, sort),
        x.to_multiset() == y.to_multiset(),
        forall|row: Row| #[trigger] level_with(x, row, sort) == level_with(y, row, sort),
    ensures
        x == y,
    decreases x.len(),
{
    broadcast use vstd::seq_lib::to_multiset_len;
    broadcast use vstd::seq_lib::to_multiset_contains;

    x.to_multiset_ensures();
    y.to_multiset_ensures();
    if x.len() == 0 {
        assert(x =~= y);
    } else {
        let xl = x.last();
        let yl = y.last();
        let xs = x.drop_last();
        let ys = y.drop_last();
        assert(x =~= xs.push(xl));
        assert(y =~= ys.push(yl));
        assert(xl == yl) by {
            let pred = stands_level(xl, sort);
            lemma_row_same(xl, xl, sort);
            xs.lemma_filter_push(xl, pred);
            ys.lemma_filter_push(yl, pred);
            assert(level_with(x, xl, sort) == level_with(y, xl, sort));
            assert(level_with(x, xl, sort).last() == xl);
            if !pred(yl) {
                assert(x.contains(xl));
                assert(y.to_multiset().count(xl) > 0);
                assert(y.contains(xl));
                let i = choose|i: int| 0 <= i < y.len() && y[i] == xl;
                assert(y.contains(yl));
                assert(x.to_multiset().count(yl) > 0);
                assert(x.contains(yl));
                let j = choose|j: int| 0 <= j < x.len() && x[j] == yl;
                lemma_row_same(yl, yl, sort);
                if i < y.len() - 1 {
                    assert(row_relation(y[i], y[y.len() - 1], sort) != Relation::After);
                }
                if j < x.len() - 1 {
                    assert(row_relation(x[j], x[x.len() - 1], sort) != Relation::After);
                }
                lemma_row_flip(xl, yl, sort);
                assert(false);
            }
        }
        assert(xs.to_multiset() == ys.to_multiset()) by {
            vstd::seq_lib::to_multiset_remove(x, x.len() - 1);
            vstd::seq_lib::to_multiset_remove(y, y.len() - 1);
            assert(x.remove(x.len() - 1) =~= xs);
            assert(y.remove(y.len() - 1) =~= ys);
        }
        assert forall|row: Row| #[trigger]
            level_with(xs, row, sort) == level_with(ys, row, sort) by {
            let pred = stands_level(row, sort);
            xs.lemma_filter_push(xl, pred);
            ys.lemma_filter_push(yl, pred);
            assert(level_with(x, row, sort) == level_with(y, row, sort));
            if pred(xl) {
                assert(xs.filter(pred).push(xl).drop_last() =~= xs.filter(pred));
                assert(ys.filter(pred).push(yl).drop_last() =~= ys.filter(pred));
            }
        }
        lemma_same_arrangement(xs, ys, sort);
    }
}

/// Every listing can be put in order without disturbing what stands level,
/// and `sorted_rows` is that arrangement.
pub proof fn lemma_sorted_rows(items: Seq<Row>, sort: SortBy)
    ensures
        is_stable_sort_of(sorted_rows(items, sort), items, sort),
        sorted_rows(items, sort).len() == items.len(),
{
    lemma_arranged(items, sort);
    sorted_rows(items, sort).to_multiset_ensures();
    items.to_multiset_ensures();
}

/// Cutting a listing short never reorders it: what stays is what stood at
/// the same place before. A limit that the listing does not exceed, or no
/// limit, leaves it as it is.
pub proof fn lemma_limit_keeps_order<T>(items: Seq<T>, limit: Option<usize>)
    ensures
        limited(items, limit).len() <= items.len(),
        forall|i: int| 0 <= i < limited(items, limit).len() ==> limited(items, limit)[i] == items[i],
        limit matches Some(n) ==> limited(items, limit).len() <= n,
        (limit matches Some(n) ==> n >= items.len()) ==> limited(items, limit) == items,
{
}

/// There is one way to put rows in order without disturbing what stands
/// level: whatever meets `is_stable_sort_of` for the same rows is the same
/// arrangement.
pub proof fn lemma_stable_sort_unique(x: Seq<Row>, y: Seq<Row>, before: Seq<Row>, sort: SortBy)
    requires
        is_stable_sort_of(x, before, sort),
        is_stable_sort_of(y, before, sort),
    ensures
        x == y,
{
    assert forall|row: Row| #[trigger]
        level_with(x, row, sort) == level_with(y, row, sort) by {
        assert(level_with(x, row, sort) == level_with(before, row, sort));
        assert(level_with(y, row, sort) == level_with(before, row, sort));
    }
    lemma_same_arrangement(x, y, sort);
}

fn merge(left: Vec<ScanItem>, right: Vec<ScanItem>, sort: SortBy) -> (out: Vec<ScanItem>)
    ensures
        rows(out@) == merged(rows(left@), rows(right@), sort),
{
    let mut a = left;
    let mut b = right;
    let mut tail: Vec<ScanItem> = Vec::new();
    assert(merged(rows(a@), rows(b@), sort) + rows(tail@).reverse() =~= merged(
        rows(left@),
        rows(right@),
        sort,
    ));
    while a.len() > 0 && b.len() > 0
        invariant
            merged(rows(left@), rows(right@), sort) == merged(rows(a@), rows(b@), sort) + rows(
                tail@,
            ).reverse(),
        decreases a.len() + b.len(),
    {
        let ghost a0 = rows(a@);
        let ghost b0 = rows(b@);
        let ghost t0 = rows(tail@);
        let from_a = match compare_items(&a[a.len() - 1], &b[b.len() - 1], sort) {
            Relation::After => true,
            _ => false,
        };
        let moved = if from_a {
            a.pop()
        } else {
            b.pop()
        };
        match moved {
            Some(item) => {
                tail.push(item);
                proof {
                    assert(rows(tail@) =~= t0.push(item@));
                    if from_a {
                        assert(rows(a@) =~= a0.drop_last());
                        assert(item@ == a0.last());
                    } else {
                        assert(rows(b@) =~= b0.drop_last());
                        assert(item@ == b0.last());
                    }
                    assert(t0.push(item@).reverse() =~= seq![item@] + t0.reverse());
                    assert(merged(rows(a@), rows(b@), sort).push(item@) + t0.reverse() =~= merged(
                        rows(a@),
                        rows(b@),
                        sort,
                    ) + (seq![item@] + t0.reverse()));
                }
            },
            None => {},
        }
    }
    let mut out = if a.len() == 0 {
        b
    } else {
        a
    };
    while tail.len() > 0
        invariant
            merged(rows(left@), rows(right@), sort) == rows(out@) + rows(tail@).reverse(),
        decreases tail.len(),
    {
        let ghost o0 = rows(out@);
        let ghost t0 = rows(tail@);
        match tail.pop() {
            Some(item) => {
                out.push(item);
                proof {
                    assert(rows(out@) =~= o0.push(item@));
                    assert(t0 =~= rows(tail@).push(item@));
                    assert(t0.reverse() =~= seq![item@] + rows(tail@).reverse());
                    assert(o0.push(item@) + rows(tail@).reverse() =~= o0 + (seq![item@] + rows(
                        tail@,
                    ).reverse()));
                }
            },
            None => {},
        }
    }
    assert(rows(out@) + rows(tail@).reverse() =~= rows(out@));
    out
}

fn arrange(items: Vec<ScanItem>, sort: SortBy) -> (out: Vec<ScanItem>)
    ensures
        rows(out@) == arranged(rows(items@), sort),
    decreases items@.len(),
{
    if items.len() < 2 {
        return items;
    }
    let ghost all = rows(items@);
    let mid = items.len() / 2;
    let mut front = items;
    let back = front.split_off(mid);
    assert(rows(front@) =~= all.subrange(0, mid as int));
    assert(rows(back@) =~= all.subrange(mid as int, all.len() as int));
    let front = arrange(front, sort);
    let back = arrange(back, sort);
    merge(front, back, sort)
}

/// Puts `items` in the listing order chosen by `sort`. Rows that stand
/// level keep the order in which they came.
pub fn sort_items(items: &mut Vec<ScanItem>, sort: SortBy)
    ensures
        is_stable_sort_of(rows(final(items)@), rows(old(items)@), sort),
        rows(final(items)@) == sorted_rows(rows(old(items)@), sort),
{
    let mut taken: Vec<ScanItem> = Vec::new();
    core::mem::swap(items, &mut taken);
    proof {
        lemma_arranged(rows(taken@), sort);
        lemma_sorted_rows(rows(taken@), sort);
        lemma_stable_sort_unique(
            arranged(rows(taken@), sort),
            sorted_rows(rows(taken@), sort),
            rows(taken@),
            sort,
        );
    }
    *items = arrange(taken, sort);
}

/// Cuts `items` down to its first `limit` items. The items that stay keep
/// their order, and a limit that the listing does not exceed changes nothing.
pub fn apply_limit(items: &mut Vec<ScanItem>, limit: Option<usize>)
    ensures
        final(items)@ == limited(old(items)@, limit),
{
    match limit {
        Some(n) => {
            if items.len() > n {
                items.truncate(n);
            }
        },
        None => {},
    }
}

} // verus!
