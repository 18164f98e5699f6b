//! Display order of transactions: date descending, ties broken by id
//! descending, so the most recently inserted row comes first.
//!
//! [`sort_desc`] is the canonical sorted image of a transaction sequence;
//! the query functions promise to return exactly a prefix of it.

use vstd::prelude::*;

use crate::domain::TransactionV;

verus! {

/// Whether `a` is displayed strictly before `b`: a later date, or the same
/// date and a later insertion.
pub open spec fn later(a: TransactionV, b: TransactionV) -> bool {
    a.date > b.date || (a.date == b.date && a.id > b.id)
}

/// Whether `a` is displayed no later than `b`.
pub open spec fn later_eq(a: TransactionV, b: TransactionV) -> bool {
    a.date > b.date || (a.date == b.date && a.id >= b.id)
}

/// Strict display order over a whole sequence.
pub open spec fn strictly_desc(s: Seq<TransactionV>) -> bool {
    forall|i: int, j: int| 0 <= i < j < s.len() ==> later(#[trigger] s[i], #[trigger] s[j])
}

/// Pairwise distinct ids.
pub open spec fn ids_distinct(s: Seq<TransactionV>) -> bool {
    forall|i: int, j: int| 0 <= i < j < s.len() ==> (#[trigger] s[i]).id != (#[trigger] s[j]).id
}

/// `s` with `t` inserted before the first element it displays no later
/// than.
pub open spec fn insert_desc(s: Seq<TransactionV>, t: TransactionV) -> Seq<TransactionV>
    decreases s.len(),
{
    if s.len() == 0 {
        seq![t]
    } else if later_eq(t, s[0]) {
        seq![t] + s
    } else {
        seq![s[0]] + insert_desc(s.subrange(1, s.len() as int), t)
    }
}

/// The display-sorted image of `s`: insertion sort, right to left.
pub open spec fn sort_desc(s: Seq<TransactionV>) -> Seq<TransactionV>
    decreases s.len(),
{
    if s.len() == 0 {
        Seq::empty()
    } else {
        insert_desc(sort_desc(s.drop_last()), s.last())
    }
}

/// Insertion grows the length by one.
pub proof fn lemma_insert_desc_len(s: Seq<TransactionV>, t: TransactionV)
    ensures
        insert_desc(s, t).len() == s.len() + 1,
    decreases s.len(),
{
    if s.len() > 0 && !later_eq(t, s[0]) {
        lemma_insert_desc_len(s.subrange(1, s.len() as int), t);
    }
}

/// Sorting keeps the length.
pub proof fn lemma_sort_desc_len(s: Seq<TransactionV>)
    ensures
        sort_desc(s).len() == s.len(),
    decreases s.len(),
{
    if s.len() > 0 {
        lemma_sort_desc_len(s.drop_last());
        lemma_insert_desc_len(sort_desc(s.drop_last()), s.last());
    }
}

/// Inserting into a strictly ordered sequence whose ids avoid `t.id` keeps
/// the order strict, grows the length by one, and adds exactly `t`.
pub proof fn lemma_insert_desc(s: Seq<TransactionV>, t: TransactionV)
    requires
        strictly_desc(s),
        forall|i: int| 0 <= i < s.len() ==> (#[trigger] s[i]).id != t.id,
    ensures
        insert_desc(s, t).len() == s.len() + 1,
        strictly_desc(insert_desc(s, t)),
        forall|x: TransactionV|
            #[trigger] insert_desc(s, t).contains(x) <==> s.contains(x) || x == t,
    decreases s.len(),
{
    let r = insert_desc(s, t);
    if s.len() == 0 {
        assert forall|x: TransactionV| #[trigger] r.contains(x) implies x == t by {}
        assert(r.contains(t)) by {
            assert(r[0] == t);
        }
    } else if later_eq(t, s[0]) {
        assert(s.contains(s[0])) by {
            assert(s[0] == s[0]);
        }
        assert(later(t, s[0])) by {
            assert(s[0].id != t.id);
        }
        assert forall|i: int, j: int| 0 <= i < j < r.len() implies later(r[i], r[j]) by {
            if i == 0 {
                assert(r[j] == s[j - 1]);
                if j - 1 > 0 {
                    assert(later(s[0], s[j - 1]));
                }
            } else {
                assert(r[i] == s[i - 1] && r[j] == s[j - 1]);
            }
        }
        assert forall|x: TransactionV| #[trigger] r.contains(x) implies s.contains(x) || x == t by {
            let w = choose|w: int| 0 <= w < r.len() && r[w] == x;
            if w > 0 {
                assert(s[w - 1] == x);
            }
        }
        assert forall|x: TransactionV| s.contains(x) || x == t implies #[trigger] r.contains(x) by {
            if s.contains(x) {
                let w = choose|w: int| 0 <= w < s.len() && s[w] == x;
                assert(r[w + 1] == x);
            } else {
                assert(r[0] == x);
            }
        }
    } else {
        let tail = s.subrange(1, s.len() as int);
        assert forall|i: int, j: int| 0 <= i < j < tail.len() implies later(
            #[trigger] tail[i],
            #[trigger] tail[j],
        ) by {
            assert(tail[i] == s[i + 1] && tail[j] == s[j + 1]);
        }
        assert forall|i: int| 0 <= i < tail.len() implies (#[trigger] tail[i]).id != t.id by {
            assert(tail[i] == s[i + 1]);
        }
        lemma_insert_desc(tail, t);
        let rt = insert_desc(tail, t);
        assert(later(s[0], t));
        assert forall|i: int| 0 <= i < rt.len() implies later(s[0], #[trigger] rt[i]) by {
            assert(rt.contains(rt[i]));
            if tail.contains(rt[i]) {
                let w = choose|w: int| 0 <= w < tail.len() && tail[w] == rt[i];
                assert(tail[w] == s[w + 1]);
                assert(later(s[0], s[w + 1]));
            }
        }
        assert forall|i: int, j: int| 0 <= i < j < r.len() implies later(r[i], r[j]) by {
            if i == 0 {
                assert(r[j] == rt[j - 1]);
            } else {
                assert(r[i] == rt[i - 1] && r[j] == rt[j - 1]);
            }
        }
        assert forall|x: TransactionV| #[trigger] r.contains(x) implies s.contains(x) || x == t by {
            let w = choose|w: int| 0 <= w < r.len() && r[w] == x;
            if w == 0 {
                assert(s[0] == x);
            } else {
                assert(rt[w - 1] == x);
                assert(rt.contains(rt[w - 1]));
                if tail.contains(x) {
                    let v = choose|v: int| 0 <= v < tail.len() && tail[v] == x;
                    assert(s[v + 1] == x);
                }
            }
        }
        assert forall|x: TransactionV| s.contains(x) || x == t implies #[trigger] r.contains(x) by {
            if s.contains(x) {
                let w = choose|w: int| 0 <= w < s.len() && s[w] == x;
                if w == 0 {
                    assert(r[0] == x);
                } else {
                    assert(tail[w - 1] == x);
                    assert(tail.contains(x));
                    assert(rt.contains(x));
                    let v = choose|v: int| 0 <= v < rt.len() && rt[v] == x;
                    assert(r[v + 1] == x);
                }
            } else {
                assert(rt.contains(x));
                let v = choose|v: int| 0 <= v < rt.len() && rt[v] == x;
                assert(r[v + 1] == x);
            }
        }
    }
}

/// Sorting a sequence with distinct ids yields a strictly ordered sequence
/// of the same length holding exactly the same transactions.
pub proof fn lemma_sort_desc(s: Seq<TransactionV>)
    requires
        ids_distinct(s),
    ensures
        sort_desc(s).len() == s.len(),
        strictly_desc(sort_desc(s)),
        forall|x: TransactionV| #[trigger] sort_desc(s).contains(x) <==> s.contains(x),
    decreases s.len(),
{
    if s.len() > 0 {
        let butlast = s.drop_last();
        let t = s.last();
        assert forall|i: int, j: int| 0 <= i < j < butlast.len() implies (
        #[trigger] butlast[i]).id != (#[trigger] butlast[j]).id by {
            assert(butlast[i] == s[i] && butlast[j] == s[j]);
        }
        lemma_sort_desc(butlast);
        let sorted = sort_desc(butlast);
        assert forall|i: int| 0 <= i < sorted.len() implies (#[trigger] sorted[i]).id != t.id by {
            assert(sorted.contains(sorted[i]));
            assert(butlast.contains(sorted[i]));
            let w = choose|w: int| 0 <= w < butlast.len() && butlast[w] == sorted[i];
            assert(butlast[w] == s[w]);
            assert(s[w].id != s[s.len() - 1].id);
        }
        lemma_insert_desc(sorted, t);
        assert forall|x: TransactionV| #[trigger] sort_desc(s).contains(x) implies s.contains(
            x,
        ) by {
            if sorted.contains(x) {
                assert(butlast.contains(x));
                let w = choose|w: int| 0 <= w < butlast.len() && butlast[w] == x;
                assert(s[w] == x);
            } else {
                assert(s[s.len() - 1] == x);
            }
        }
        assert forall|x: TransactionV| s.contains(x) implies #[trigger] sort_desc(s).contains(
            x,
        ) by {
            let w = choose|w: int| 0 <= w < s.len() && s[w] == x;
            if w < s.len() - 1 {
                assert(butlast[w] == x);
                assert(butlast.contains(x));
            }
        }
    }
}

/// Inserting at the first position whose element does not display before
/// `t` is exactly [`insert_desc`].
pub proof fn lemma_insert_at(s: Seq<TransactionV>, t: TransactionV, p: int)
    requires
        0 <= p <= s.len(),
        forall|k: int| 0 <= k < p ==> later(#[trigger] s[k], t),
        p < s.len() ==> !later(s[p], t),
    ensures
        insert_desc(s, t) == s.insert(p, t),
    decreases s.len(),
{
    if s.len() == 0 {
        assert(insert_desc(s, t) =~= s.insert(0, t));
    } else if p == 0 {
        assert(later_eq(t, s[0]));
        assert(seq![t] + s =~= s.insert(0, t));
    } else {
        assert(later(s[0], t));
        assert(!later_eq(t, s[0]));
        let tail = s.subrange(1, s.len() as int);
        assert forall|k: int| 0 <= k < p - 1 implies later(#[trigger] tail[k], t) by {
            assert(tail[k] == s[k + 1]);
        }
        lemma_insert_at(tail, t, p - 1);
        assert(seq![s[0]] + tail.insert(p - 1, t) =~= s.insert(p, t));
    }
}

} // verus!
