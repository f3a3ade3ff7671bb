//! The two orders in which rows are listed, and the order of paths that
//! both rest on.

use vstd::prelude::*;
use vstd::std_specs::iter::IteratorSpec;
use crate::item::{Row, ScanItem};

verus! {

/// How one value stands to another in an order.
#[derive(Clone, Copy, Debug, PartialEq, Eq, Structural)]
pub enum Relation {
    /// The first comes before the second.
    Before,
    /// Neither comes before the other.
    Same,
    /// The first comes after the second.
    After,
}

/// Lexicographic comparison of two texts by the code points of their
/// characters: the first difference decides, and a proper prefix comes first.
pub open spec fn text_relation(a: Seq<char>, b: Seq<char>) -> Relation
    decreases a.len(),
{
    if a.len() == 0 {
        if b.len() == 0 {
            Relation::Same
        } else {
            Relation::Before
        }
    } else if b.len() == 0 {
        Relation::After
    } else if (a[0] as int) < (b[0] as int) {
        Relation::Before
    } else if (a[0] as int) > (b[0] as int) {
        Relation::After
    } else {
        text_relation(a.drop_first(), b.drop_first())
    }
}

/// Compares two texts lexicographically.
pub fn compare_text(a: &str, b: &str) -> (rel: Relation)
    ensures
        rel == text_relation(a@, b@),
{
    let mut left = a.chars();
    let mut right = b.chars();
    loop
        invariant
            left.obeys_prophetic_iter_laws(),
            right.obeys_prophetic_iter_laws(),
            left.decrease() is Some,
            text_relation(a@, b@) == text_relation(left.remaining(), right.remaining()),
        decreases left.decrease()->0,
    {
        let x = left.next();
        let y = right.next();
        match (x, y) {
            (None, None) => {
                return Relation::Same;
            },
            (None, Some(_)) => {
                return Relation::Before;
            },
            (Some(_), None) => {
                return Relation::After;
            },
            (Some(p), Some(q)) => {
                if p < q {
                    return Relation::Before;
                }
                if p > q {
                    return Relation::After;
                }
            },
        }
    }
}

/// The key by which rows are listed.
#[derive(Clone, Copy, Debug, PartialEq, Eq, Structural)]
pub enum SortBy {
    /// Largest first; rows of one size by ascending path.
    Size,
    /// By ascending path; rows of one path largest first.
    Name,
}

/// How row `a` stands to row `b` in the listing chosen by `sort`.
pub open spec fn row_relation(a: Row, b: Row, sort: SortBy) -> Relation {
    match sort {
        SortBy::Size => {
            if a.size > b.size {
                Relation::Before
            } else if a.size < b.size {
                Relation::After
            } else {
                text_relation(a.path, b.path)
            }
        },
        SortBy::Name => {
            match text_relation(a.path, b.path) {
                Relation::Before => Relation::Before,
                Relation::After => Relation::After,
                Relation::Same => {
                    if a.size > b.size {
                        Relation::Before
                    } else if a.size < b.size {
                        Relation::After
                    } else {
                        Relation::Same
                    }
                },
            }
        },
    }
}

/// Says how `a` stands to `b` in the listing chosen by `sort`.
pub fn compare_items(a: &ScanItem, b: &ScanItem, sort: SortBy) -> (rel: Relation)
    ensures
        rel == row_relation(a@, b@, sort),
{
    match sort {
        SortBy::Size => {
            if a.size() > b.size() {
                Relation::Before
            } else if a.size() < b.size() {
                Relation::After
            } else {
                compare_text(a.path(), b.path())
            }
        },
        SortBy::Name => {
            match compare_text(a.path(), b.path()) {
                Relation::Before => Relation::Before,
                Relation::After => Relation::After,
                Relation::Same => {
                    if a.size() > b.size() {
                        Relation::Before
                    } else if a.size() < b.size() {
                        Relation::After
                    } else {
                        Relation::Same
                    }
                },
            }
        },
    }
}

/// The texts agree before position `at`, and there `a` is the lesser: it
/// has ended where `b` goes on, or it has the character of the lesser code
/// point.
pub open spec fn lesser_at(a: Seq<char>, b: Seq<char>, at: int) -> bool {
    &&& 0 <= at <= a.len()
    &&& at < b.len()
    &&& forall|i: int| 0 <= i < at ==> a[i] == b[i]
    &&& (at == a.len() || (a[at] as int) < (b[at] as int))
}

/// One text comes before another exactly when it is the lesser at the first
/// position where the two part.
pub proof fn lemma_text_before(a: Seq<char>, b: Seq<char>)
    ensures
        text_relation(a, b) == Relation::Before <==> exists|at: int| lesser_at(a, b, at),
    decreases a.len(),
{
    let x = a.drop_first();
    let y = b.drop_first();
    if a.len() > 0 && b.len() > 0 {
        lemma_text_before(x, y);
    }
    if text_relation(a, b) == Relation::Before {
        if a.len() == 0 || (a[0] as int) < (b[0] as int) {
            assert(lesser_at(a, b, 0));
        } else {
            let below = choose|at: int| lesser_at(x, y, at);
            assert forall|i: int| 0 <= i < below + 1 implies a[i] == b[i] by {
                if i > 0 {
                    assert(x[i - 1] == a[i]);
                    assert(y[i - 1] == b[i]);
                }
            }
            if below < x.len() {
                assert(x[below] == a[below + 1]);
                assert(y[below] == b[below + 1]);
            }
            assert(lesser_at(a, b, below + 1));
        }
    }
    if exists|at: int| lesser_at(a, b, at) {
        let at = choose|at: int| lesser_at(a, b, at);
        if at > 0 {
            assert(a[0] == b[0]);
            assert forall|i: int| 0 <= i < at - 1 implies x[i] == y[i] by {
                assert(x[i] == a[i + 1]);
                assert(y[i] == b[i + 1]);
            }
            if at < a.len() {
                assert(x[at - 1] == a[at]);
                assert(y[at - 1] == b[at]);
            }
            assert(lesser_at(x, y, at - 1));
        }
    }
}

/// Two texts stand level exactly when they are the same text.
pub proof fn lemma_text_same(a: Seq<char>, b: Seq<char>)
    ensures
        text_relation(a, b) == Relation::Same <==> a == b,
    decreases a.len(),
{
    if a.len() > 0 && b.len() > 0 {
        lemma_text_same(a.drop_first(), b.drop_first());
        if a[0] == b[0] && a.drop_first() == b.drop_first() {
            assert(a.len() == b.len()) by {
                assert(a.drop_first().len() == b.drop_first().len());
            }
            assert forall|i: int| 0 <= i < a.len() implies a[i] == b[i] by {
                if i > 0 {
                    assert(a.drop_first()[i - 1] == a[i]);
                    assert(b.drop_first()[i - 1] == b[i]);
                }
            }
            assert(a =~= b);
        }
    } else if a.len() == 0 && b.len() == 0 {
        assert(a =~= b);
    }
}

/// Swapping the two texts swaps before and after.
pub proof fn lemma_text_flip(a: Seq<char>, b: Seq<char>)
    ensures
        text_relation(a, b) == Relation::Before <==> text_relation(b, a) == Relation::After,
        text_relation(a, b) == Relation::After <==> text_relation(b, a) == Relation::Before,
        text_relation(a, b) == Relation::Same <==> text_relation(b, a) == Relation::Same,
    decreases a.len(),
{
    if a.len() > 0 && b.len() > 0 {
        lemma_text_flip(a.drop_first(), b.drop_first());
    }
}

/// The order of texts is transitive, and a strict step anywhere makes the
/// whole chain strict.
pub proof fn lemma_text_transitive(a: Seq<char>, b: Seq<char>, c: Seq<char>)
    requires
        text_relation(a, b) != Relation::After,
        text_relation(b, c) != Relation::After,
    ensures
        text_relation(a, c) != Relation::After,
        text_relation(a, b) == Relation::Before || text_relation(b, c) == Relation::Before
            ==> text_relation(a, c) == Relation::Before,
    decreases a.len(),
{
    if a.len() > 0 && b.len() > 0 && c.len() > 0 {
        if a[0] == b[0] && b[0] == c[0] {
            lemma_text_transitive(a.drop_first(), b.drop_first(), c.drop_first());
        }
    }
}

/// Two rows stand level exactly when they agree in path and size: the
/// listing orders leave the place of no two different rows open, but for
/// rows that differ in their classification alone.
pub proof fn lemma_row_same(a: Row, b: Row, sort: SortBy)
    ensures
        row_relation(a, b, sort) == Relation::Same <==> a.path == b.path && a.size == b.size,
{
    lemma_text_same(a.path, b.path);
}

/// Every two rows are comparable, and swapping them swaps before and after.
pub proof fn lemma_row_flip(a: Row, b: Row, sort: SortBy)
    ensures
        row_relation(a, b, sort) == Relation::Before <==> row_relation(b, a, sort)
            == Relation::After,
        row_relation(a, b, sort) == Relation::After <==> row_relation(b, a, sort)
            == Relation::Before,
        row_relation(a, b, sort) == Relation::Same <==> row_relation(b, a, sort)
            == Relation::Same,
{
    lemma_text_flip(a.path, b.path);
}

/// The listing orders are transitive, and a strict step anywhere makes the
/// whole chain strict.
pub proof fn lemma_row_transitive(a: Row, b: Row, c: Row, sort: SortBy)
    requires
        row_relation(a, b, sort) != Relation::After,
        row_relation(b, c, sort) != Relation::After,
    ensures
        row_relation(a, c, sort) != Relation::After,
        row_relation(a, b, sort) == Relation::Before || row_relation(b, c, sort)
            == Relation::Before ==> row_relation(a, c, sort) == Relation::Before,
{
    match sort {
        SortBy::Size => {
            if a.size == b.size && b.size == c.size {
                lemma_text_transitive(a.path, b.path, c.path);
            }
        },
        SortBy::Name => {
            lemma_text_transitive(a.path, b.path, c.path);
            lemma_text_same(a.path, b.path);
            lemma_text_same(b.path, c.path);
            lemma_text_same(a.path, c.path);
        },
    }
}

} // verus!
