//! The ledger engine: the in-memory state, its invariants, and the mutating
//! operations.
//!
//! Two invariants govern every state the engine ever exposes:
//! * every user's balance equals the sum of the amounts of that user's
//!   transactions (maintained incrementally, one paired write at a time);
//! * usernames are unique.
//!
//! Both are part of [`ledger_inv`], which every operation requires and
//! re-establishes, so they hold after every sequence of operations.

use vstd::prelude::*;

use crate::clock::{current_timestamp, parse_timestamp, parse_ts};
use crate::domain::{
    Kind, LedgerError, Transaction, TransactionV, TxnRow, TxnRowV, User, UserV,
    UserWithTransactions, parse_kind, signed_of, spec_parse_kind, translate,
};
use crate::order::{
    ids_distinct, insert_desc, later, lemma_insert_at, lemma_sort_desc, lemma_sort_desc_len,
    sort_desc, strictly_desc,
};

verus! {

/// The whole ledger: counterparties and the transaction log.
pub struct Ledger {
    users: Vec<User>,
    txns: Vec<Transaction>,
    next_id: u64,
}

/// Mathematical image of a [`Ledger`].
#[verifier::ext_equal]
pub struct LedgerV {
    pub users: Seq<UserV>,
    pub txns: Seq<TransactionV>,
    pub next_id: u64,
}

/// The views of a sequence of stored users.
pub open spec fn user_views(s: Seq<User>) -> Seq<UserV> {
    s.map_values(|u: User| u@)
}

/// The views of a sequence of stored transactions.
pub open spec fn txn_views(s: Seq<Transaction>) -> Seq<TransactionV> {
    s.map_values(|t: Transaction| t@)
}

impl View for Ledger {
    type V = LedgerV;

    closed spec fn view(&self) -> LedgerV {
        LedgerV { users: user_views(self.users@), txns: txn_views(self.txns@), next_id: self.next_id }
    }
}

/// The sum of the amounts of the transactions recorded for `name`.
pub open spec fn sum_for(s: Seq<TransactionV>, name: Seq<char>) -> int
    decreases s.len(),
{
    if s.len() == 0 {
        0
    } else {
        sum_for(s.drop_last(), name) + (if s.last().username == name {
            s.last().amount as int
        } else {
            0
        })
    }
}

/// Whether index `i` holds a user named `name`.
pub open spec fn name_at(users: Seq<UserV>, name: Seq<char>, i: int) -> bool {
    0 <= i < users.len() && users[i].username == name
}

/// Whether some user is named `name`.
pub open spec fn has_name(users: Seq<UserV>, name: Seq<char>) -> bool {
    exists|i: int| name_at(users, name, i)
}

/// The running balance `name` is owed: the sum over the log.
pub open spec fn balance_of(l: LedgerV, name: Seq<char>) -> int {
    sum_for(l.txns, name)
}

/// The state invariant: unique usernames; every balance equal to the sum of
/// its user's transaction amounts; every transaction tied to an existing
/// user, non-zero, and carrying an id below `next_id`, in strictly
/// increasing insertion order.
pub open spec fn ledger_inv(l: LedgerV) -> bool {
    &&& forall|i: int, j: int|
        0 <= i < j < l.users.len() ==> (#[trigger] l.users[i]).username != (
        #[trigger] l.users[j]).username
    &&& forall|i: int|
        0 <= i < l.users.len() ==> (#[trigger] l.users[i]).balance as int == sum_for(
            l.txns,
            l.users[i].username,
        )
    &&& forall|i: int| 0 <= i < l.txns.len() ==> has_name(l.users, (#[trigger] l.txns[i]).username)
    &&& forall|i: int| 0 <= i < l.txns.len() ==> (#[trigger] l.txns[i]).amount != 0
    &&& forall|i: int, j: int|
        0 <= i < j < l.txns.len() ==> (#[trigger] l.txns[i]).id < (#[trigger] l.txns[j]).id
    &&& forall|i: int| 0 <= i < l.txns.len() ==> (#[trigger] l.txns[i]).id < l.next_id
}

/// Whether an integer is representable as a stored balance.
pub open spec fn fits_i64(x: int) -> bool {
    i64::MIN <= x <= i64::MAX
}

/// The error, if any, that recording `m` under `kind` against `name` gives:
/// an unknown user, then a zero or unrepresentable amount, then an exhausted
/// id space. `None` means the operation is owed success.
pub open spec fn apply_err(l: LedgerV, name: Seq<char>, kind: Kind, m: u64) -> Option<LedgerError> {
    if !has_name(l.users, name) {
        Some(LedgerError::UserNotFound)
    } else if m == 0 || m > i64::MAX || !fits_i64(balance_of(l, name) + signed_of(kind, m)) {
        Some(LedgerError::InvalidAmount)
    } else if l.next_id == u64::MAX {
        Some(LedgerError::ConstraintViolation)
    } else {
        None
    }
}

/// The transaction row a successful application appends.
pub open spec fn new_txn(
    l: LedgerV,
    name: Seq<char>,
    kind: Kind,
    m: u64,
    desc: Seq<char>,
    now: i64,
) -> TransactionV {
    TransactionV {
        id: l.next_id,
        username: name,
        kind: kind,
        amount: signed_of(kind, m) as i64,
        date: now,
        description: desc,
    }
}

/// The user list with `delta` added to the balance of the user named `name`.
pub open spec fn adjusted(users: Seq<UserV>, name: Seq<char>, delta: int) -> Seq<UserV> {
    users.map_values(
        |u: UserV|
            if u.username == name {
                UserV { username: u.username, balance: (u.balance + delta) as i64 }
            } else {
                u
            },
    )
}

/// The state after a successful application: the balance adjustment and the
/// appended row, together.
pub open spec fn apply_result(
    l: LedgerV,
    name: Seq<char>,
    kind: Kind,
    m: u64,
    desc: Seq<char>,
    now: i64,
) -> LedgerV {
    LedgerV {
        users: adjusted(l.users, name, signed_of(kind, m)),
        txns: l.txns.push(new_txn(l, name, kind, m, desc, now)),
        next_id: (l.next_id + 1) as u64,
    }
}

/// The error, if any, that creating `name` with an initial magnitude `m`
/// gives: an existing username first, then an unrepresentable magnitude,
/// then an exhausted id space. A zero magnitude is allowed and simply
/// records no transaction.
pub open spec fn create_err(l: LedgerV, name: Seq<char>, m: u64) -> Option<LedgerError> {
    if has_name(l.users, name) {
        Some(LedgerError::DuplicateUser)
    } else if m > i64::MAX {
        Some(LedgerError::InvalidAmount)
    } else if m != 0 && l.next_id == u64::MAX {
        Some(LedgerError::ConstraintViolation)
    } else {
        None
    }
}

/// The state after a successful creation: the new user, and, for a non-zero
/// magnitude, the seed transaction that justifies its starting balance.
pub open spec fn create_result(
    l: LedgerV,
    name: Seq<char>,
    kind: Kind,
    m: u64,
    desc: Seq<char>,
    now: i64,
) -> LedgerV {
    if m == 0 {
        LedgerV {
            users: l.users.push(UserV { username: name, balance: 0 }),
            txns: l.txns,
            next_id: l.next_id,
        }
    } else {
        LedgerV {
            users: l.users.push(
                UserV { username: name, balance: signed_of(kind, m) as i64 },
            ),
            txns: l.txns.push(new_txn(l, name, kind, m, desc, now)),
            next_id: (l.next_id + 1) as u64,
        }
    }
}

/// Appending one transaction extends exactly the sum of its own user.
pub proof fn lemma_sum_push(s: Seq<TransactionV>, t: TransactionV, name: Seq<char>)
    ensures
        sum_for(s.push(t), name) == sum_for(s, name) + (if t.username == name {
            t.amount as int
        } else {
            0
        }),
{
    assert(s.push(t).drop_last() =~= s);
    assert(s.push(t).last() == t);
}

/// A user none of the transactions belong to has sum zero.
pub proof fn lemma_sum_absent(s: Seq<TransactionV>, name: Seq<char>)
    requires
        forall|i: int| 0 <= i < s.len() ==> (#[trigger] s[i]).username != name,
    ensures
        sum_for(s, name) == 0,
    decreases s.len(),
{
    if s.len() > 0 {
        assert(forall|i: int|
            0 <= i < s.drop_last().len() ==> (#[trigger] s.drop_last()[i]) == s[i]);
        lemma_sum_absent(s.drop_last(), name);
    }
}

/// A magnitude within `i64::MAX` translates to a representable amount.
pub proof fn lemma_signed_fits(k: Kind, m: u64)
    requires
        m <= i64::MAX,
    ensures
        i64::MIN <= signed_of(k, m) <= i64::MAX,
        (signed_of(k, m) as i64) as int == signed_of(k, m),
        m != 0 ==> signed_of(k, m) != 0,
{
    match k {
        Kind::Pay => assert(signed_of(k, m) == m),
        Kind::Lend => assert(signed_of(k, m) == m),
        Kind::Receive => assert(signed_of(k, m) == -(m as int)),
        Kind::Borrow => assert(signed_of(k, m) == -(m as int)),
    }
}

/// Law: recording two transactions for the same user accumulates both
/// amounts, and the order of the two records does not change the sum —
/// neither update is lost.
pub proof fn lemma_two_appends_accumulate(
    s: Seq<TransactionV>,
    a: TransactionV,
    b: TransactionV,
    name: Seq<char>,
)
    requires
        a.username == name,
        b.username == name,
    ensures
        sum_for(s.push(a).push(b), name) == sum_for(s, name) + a.amount + b.amount,
        sum_for(s.push(a).push(b), name) == sum_for(s.push(b).push(a), name),
{
    lemma_sum_push(s, a, name);
    lemma_sum_push(s.push(a), b, name);
    lemma_sum_push(s, b, name);
    lemma_sum_push(s.push(b), a, name);
}

/// Law: applying two transactions against the same user, in either order,
/// leaves that user's balance at the starting balance plus both signed
/// amounts.
pub proof fn lemma_apply_twice_balance(
    l: LedgerV,
    name: Seq<char>,
    k1: Kind,
    m1: u64,
    d1: Seq<char>,
    n1: i64,
    k2: Kind,
    m2: u64,
    d2: Seq<char>,
    n2: i64,
)
    requires
        m1 <= i64::MAX,
        m2 <= i64::MAX,
    ensures
        balance_of(
            apply_result(apply_result(l, name, k1, m1, d1, n1), name, k2, m2, d2, n2),
            name,
        ) == balance_of(l, name) + signed_of(k1, m1) + signed_of(k2, m2),
        balance_of(
            apply_result(apply_result(l, name, k1, m1, d1, n1), name, k2, m2, d2, n2),
            name,
        ) == balance_of(
            apply_result(apply_result(l, name, k2, m2, d2, n2), name, k1, m1, d1, n1),
            name,
        ),
{
    lemma_signed_fits(k1, m1);
    lemma_signed_fits(k2, m2);
    let l1 = apply_result(l, name, k1, m1, d1, n1);
    let l2 = apply_result(l, name, k2, m2, d2, n2);
    lemma_sum_push(l.txns, new_txn(l, name, k1, m1, d1, n1), name);
    lemma_sum_push(l1.txns, new_txn(l1, name, k2, m2, d2, n2), name);
    lemma_sum_push(l.txns, new_txn(l, name, k2, m2, d2, n2), name);
    lemma_sum_push(l2.txns, new_txn(l2, name, k1, m1, d1, n1), name);
}

/// The views of a sequence of stored rows.
pub open spec fn row_views(s: Seq<TxnRow>) -> Seq<TxnRowV> {
    s.map_values(|r: TxnRow| r@)
}

/// Whether two users share a username.
pub open spec fn users_dup(users: Seq<UserV>) -> bool {
    exists|i: int, j: int|
        0 <= i < j < users.len() && (#[trigger] users[i]).username == (
        #[trigger] users[j]).username
}

/// The complaint one stored row raises, checked in order: an unknown kind
/// label, an unreadable date, an unknown owner, a zero amount, an id below
/// `lo` (out of insertion order) or at the very top of the id space.
pub open spec fn row_err(users: Seq<UserV>, row: TxnRowV, lo: int) -> Option<LedgerError> {
    if spec_parse_kind(row.kind) is None {
        Some(LedgerError::InvalidAmount)
    } else if parse_ts(row.date) is None {
        Some(LedgerError::MalformedTimestamp)
    } else if !has_name(users, row.username) {
        Some(LedgerError::ConstraintViolation)
    } else if row.amount == 0 {
        Some(LedgerError::ConstraintViolation)
    } else if row.id < lo || row.id == u64::MAX {
        Some(LedgerError::ConstraintViolation)
    } else {
        None
    }
}

/// The transaction a valid stored row denotes.
pub open spec fn conv_row(row: TxnRowV) -> TransactionV {
    TransactionV {
        id: row.id,
        username: row.username,
        kind: spec_parse_kind(row.kind)->Some_0,
        amount: row.amount,
        date: parse_ts(row.date)->Some_0,
        description: row.description,
    }
}

/// The converted log.
pub open spec fn conv_rows(rows: Seq<TxnRowV>) -> Seq<TransactionV> {
    rows.map_values(|r: TxnRowV| conv_row(r))
}

/// The first complaint the stored rows raise, scanning in stored order;
/// `lo` is the least id the next row may carry.
pub open spec fn rows_err(users: Seq<UserV>, rows: Seq<TxnRowV>, lo: int) -> Option<LedgerError>
    decreases rows.len(),
{
    if rows.len() == 0 {
        None
    } else if row_err(users, rows[0], lo) is Some {
        row_err(users, rows[0], lo)
    } else {
        rows_err(users, rows.skip(1), rows[0].id + 1)
    }
}

/// Whether some stored balance drifts from the sum of its user's rows.
pub open spec fn balance_drift(users: Seq<UserV>, txns: Seq<TransactionV>) -> bool {
    exists|i: int|
        0 <= i < users.len() && (#[trigger] users[i]).balance as int != sum_for(
            txns,
            users[i].username,
        )
}

/// The complaint, if any, a whole stored snapshot raises: duplicate
/// usernames, then the rows in order, then balance drift.
pub open spec fn load_err(users: Seq<UserV>, rows: Seq<TxnRowV>) -> Option<LedgerError> {
    if users_dup(users) {
        Some(LedgerError::ConstraintViolation)
    } else if rows_err(users, rows, 0) is Some {
        rows_err(users, rows, 0)
    } else if balance_drift(users, conv_rows(rows)) {
        Some(LedgerError::ConstraintViolation)
    } else {
        None
    }
}

/// The state a valid snapshot loads to.
pub open spec fn load_result(users: Seq<UserV>, rows: Seq<TxnRowV>) -> LedgerV {
    LedgerV {
        users,
        txns: conv_rows(rows),
        next_id: if rows.len() == 0 {
            1u64
        } else {
            (rows.last().id + 1) as u64
        },
    }
}

/// What passing the row scan guarantees of every row: a known owner, a
/// non-zero amount, and ids that start at `lo`, stay below the top, and
/// strictly increase.
proof fn lemma_rows_valid(users: Seq<UserV>, rows: Seq<TxnRowV>, lo: int)
    requires
        rows_err(users, rows, lo) is None,
    ensures
        forall|i: int| 0 <= i < rows.len() ==> has_name(users, (#[trigger] rows[i]).username),
        forall|i: int| 0 <= i < rows.len() ==> (#[trigger] rows[i]).amount != 0,
        forall|i: int| 0 <= i < rows.len() ==> (#[trigger] rows[i]).id >= lo,
        forall|i: int| 0 <= i < rows.len() ==> (#[trigger] rows[i]).id < u64::MAX,
        forall|i: int, j: int| 0 <= i < j < rows.len() ==> (#[trigger] rows[i]).id < (
        #[trigger] rows[j]).id,
    decreases rows.len(),
{
    if rows.len() > 0 {
        let rest = rows.skip(1);
        lemma_rows_valid(users, rest, rows[0].id + 1);
        assert(row_err(users, rows[0], lo) is None);
        assert forall|i: int| 0 <= i < rows.len() implies has_name(
            users,
            (#[trigger] rows[i]).username,
        ) && rows[i].amount != 0 && rows[i].id >= lo && rows[i].id < u64::MAX by {
            if i > 0 {
                assert(rest[i - 1] == rows[i]);
                assert(rest[i - 1].id >= rows[0].id + 1);
            }
        }
        assert forall|i: int, j: int| 0 <= i < j < rows.len() implies (#[trigger] rows[i]).id < (
        #[trigger] rows[j]).id by {
            if i == 0 {
                assert(rest[j - 1] == rows[j]);
                assert(rest[j - 1].id >= rows[0].id + 1);
            } else {
                assert(rest[i - 1] == rows[i] && rest[j - 1] == rows[j]);
            }
        }
    }
}

/// The subsequence of transactions recorded for `name`, in log order.
pub open spec fn txns_of(s: Seq<TransactionV>, name: Seq<char>) -> Seq<TransactionV>
    decreases s.len(),
{
    if s.len() == 0 {
        Seq::empty()
    } else if s.last().username == name {
        txns_of(s.drop_last(), name).push(s.last())
    } else {
        txns_of(s.drop_last(), name)
    }
}

/// The first `limit` rows of the display-sorted image of `s` — what a
/// recent-transactions query returns.
pub open spec fn top(s: Seq<TransactionV>, limit: int) -> Seq<TransactionV> {
    sort_desc(s).take(
        if limit <= s.len() {
            limit
        } else {
            s.len() as int
        },
    )
}

/// A user's transactions are drawn from the log, belong to that user, and
/// keep distinct ids distinct.
pub proof fn lemma_txns_of_props(s: Seq<TransactionV>, name: Seq<char>)
    ensures
        forall|x: TransactionV|
            #[trigger] txns_of(s, name).contains(x) ==> s.contains(x) && x.username == name,
        ids_distinct(s) ==> ids_distinct(txns_of(s, name)),
    decreases s.len(),
{
    if s.len() > 0 {
        let butlast = s.drop_last();
        assert(forall|i: int| 0 <= i < butlast.len() ==> #[trigger] butlast[i] == s[i]);
        lemma_txns_of_props(butlast, name);
        assert forall|x: TransactionV| #[trigger] txns_of(s, name).contains(x) implies s.contains(
            x,
        ) && x.username == name by {
            let f = txns_of(butlast, name);
            if s.last().username == name {
                let w = choose|w: int| 0 <= w < f.push(s.last()).len() && f.push(s.last())[w] == x;
                if w < f.len() {
                    assert(f.contains(x));
                    let v = choose|v: int| 0 <= v < butlast.len() && butlast[v] == x;
                    assert(s[v] == x);
                } else {
                    assert(s[s.len() - 1] == x);
                }
            } else {
                assert(f.contains(x));
                let v = choose|v: int| 0 <= v < butlast.len() && butlast[v] == x;
                assert(s[v] == x);
            }
        }
        if ids_distinct(s) {
            assert forall|i: int, j: int|
                0 <= i < j < butlast.len() implies (#[trigger] butlast[i]).id != (
            #[trigger] butlast[j]).id by {}
            let f = txns_of(butlast, name);
            if s.last().username == name {
                assert forall|i: int, j: int|
                    0 <= i < j < txns_of(s, name).len() implies (#[trigger] txns_of(s, name)[i]).id
                    != (#[trigger] txns_of(s, name)[j]).id by {
                    if j == f.len() {
                        assert(f.contains(f[i]));
                        assert(butlast.contains(f[i]));
                        let v = choose|v: int| 0 <= v < butlast.len() && butlast[v] == f[i];
                        assert(s[v] == f[i]);
                        assert(s[v].id != s[s.len() - 1].id);
                    }
                }
            }
        }
    }
}

/// Law: a recent-transactions query over a log with distinct ids returns
/// exactly `limit` rows — or every row, if fewer exist — in strict display
/// order: date descending, ties broken by descending id.
pub proof fn lemma_top_ordered(s: Seq<TransactionV>, limit: int)
    requires
        ids_distinct(s),
        0 <= limit,
    ensures
        top(s, limit).len() == (if limit <= s.len() {
            limit
        } else {
            s.len() as int
        }),
        strictly_desc(top(s, limit)),
{
    lemma_sort_desc(s);
    assert forall|i: int, j: int| 0 <= i < j < top(s, limit).len() implies later(
        #[trigger] top(s, limit)[i],
        #[trigger] top(s, limit)[j],
    ) by {
        assert(top(s, limit)[i] == sort_desc(s)[i]);
        assert(top(s, limit)[j] == sort_desc(s)[j]);
    }
}

/// Law: in a valid state, the global history view holds min(limit, total)
/// rows in strict display order.
pub proof fn lemma_history_ordered(l: LedgerV, limit: int)
    requires
        ledger_inv(l),
        0 <= limit,
    ensures
        top(l.txns, limit).len() == (if limit <= l.txns.len() {
            limit
        } else {
            l.txns.len() as int
        }),
        strictly_desc(top(l.txns, limit)),
{
    lemma_inv_ids_distinct(l);
    lemma_top_ordered(l.txns, limit);
}

/// Law: in a valid state, a single-user view holds only that user's
/// transactions, in strict display order.
pub proof fn lemma_check_ordered(l: LedgerV, name: Seq<char>, limit: int)
    requires
        ledger_inv(l),
        0 <= limit,
    ensures
        strictly_desc(top(txns_of(l.txns, name), limit)),
        forall|i: int|
            0 <= i < top(txns_of(l.txns, name), limit).len() ==> (#[trigger] top(
                txns_of(l.txns, name),
                limit,
            )[i]).username == name,
{
    lemma_inv_ids_distinct(l);
    lemma_txns_of_props(l.txns, name);
    let s = txns_of(l.txns, name);
    lemma_top_ordered(s, limit);
    lemma_sort_desc(s);
    assert forall|i: int| 0 <= i < top(s, limit).len() implies (#[trigger] top(s, limit)[i]).username
        == name by {
        assert(top(s, limit)[i] == sort_desc(s)[i]);
        assert(sort_desc(s).contains(sort_desc(s)[i]));
        assert(s.contains(sort_desc(s)[i]));
    }
}

/// Law: reading is repeatable — a successful balance-and-history answer is
/// a function of the ledger state alone, so two reads with no intervening
/// mutation agree.
pub proof fn lemma_check_repeatable(
    l: LedgerV,
    name: Seq<char>,
    limit: int,
    b1: i64,
    ts1: Seq<TransactionV>,
    b2: i64,
    ts2: Seq<TransactionV>,
)
    requires
        b1 as int == balance_of(l, name),
        ts1 == top(txns_of(l.txns, name), limit),
        b2 as int == balance_of(l, name),
        ts2 == top(txns_of(l.txns, name), limit),
    ensures
        b1 == b2,
        ts1 == ts2,
{
}

/// Under the invariant, ids in the log are pairwise distinct.
pub proof fn lemma_inv_ids_distinct(l: LedgerV)
    requires
        ledger_inv(l),
    ensures
        ids_distinct(l.txns),
{
}

/// The position at which a row joins an already sorted run: the first index
/// whose element does not display strictly before `t`.
fn insert_pos(out: &Vec<Transaction>, t: &Transaction) -> (p: usize)
    ensures
        p <= out@.len(),
        forall|k: int| 0 <= k < p ==> later(#[trigger] txn_views(out@)[k], t@),
        p < out@.len() ==> !later(txn_views(out@)[p as int], t@),
{
    let mut j: usize = 0;
    loop
        invariant
            j <= out@.len(),
            forall|k: int| 0 <= k < j ==> later(#[trigger] txn_views(out@)[k], t@),
        ensures
            j <= out@.len(),
            forall|k: int| 0 <= k < j ==> later(#[trigger] txn_views(out@)[k], t@),
            j < out@.len() ==> !later(txn_views(out@)[j as int], t@),
        decreases out@.len() - j,
    {
        if j == out.len() {
            break;
        }
        let c = &out[j];
        proof {
            assert(txn_views(out@)[j as int] == out@[j as int]@);
        }
        if !(c.date > t.date || (c.date == t.date && c.id > t.id)) {
            break;
        }
        j += 1;
    }
    j
}

/// Inserts one row into a sorted run, keeping it sorted.
fn sorted_insert(out: &mut Vec<Transaction>, t: Transaction)
    ensures
        txn_views(final(out)@) == insert_desc(txn_views(old(out)@), t@),
{
    let ghost pre = out@;
    let ghost tv = t@;
    let p = insert_pos(out, &t);
    out.insert(p, t);
    proof {
        lemma_insert_at(txn_views(pre), tv, p as int);
        assert(txn_views(out@) =~= txn_views(pre).insert(p as int, tv));
    }
}

/// Whether two stored users share a username.
fn has_duplicate(users: &Vec<User>) -> (r: bool)
    ensures
        r == users_dup(user_views(users@)),
{
    let ghost uv = user_views(users@);
    let mut i: usize = 0;
    while i < users.len()
        invariant
            i <= users@.len(),
            uv == user_views(users@),
            forall|a: int, b: int|
                0 <= a < b < uv.len() && a < i ==> (#[trigger] uv[a]).username != (
                #[trigger] uv[b]).username,
        decreases users@.len() - i,
    {
        let mut j: usize = i + 1;
        while j < users.len()
            invariant
                i < j <= users@.len(),
                uv == user_views(users@),
                forall|b: int|
                    i < b < j ==> (#[trigger] uv[b]).username != uv[i as int].username,
            decreases users@.len() - j,
        {
            if users[i].username == users[j].username {
                proof {
                    assert(uv[i as int].username == uv[j as int].username);
                }
                return true;
            }
            j += 1;
        }
        i += 1;
    }
    false
}

/// Validates the stored rows in order and converts each to its
/// transaction.
fn convert_rows(users: &Vec<User>, rows: &Vec<TxnRow>) -> (r: Result<Vec<Transaction>, LedgerError>)
    ensures
        match r {
            Ok(txns) => {
                &&& rows_err(user_views(users@), row_views(rows@), 0) is None
                &&& txn_views(txns@) == conv_rows(row_views(rows@))
                &&& rows@.len() > 0 ==> row_views(rows@).last().id < u64::MAX
            },
            Err(e) => rows_err(user_views(users@), row_views(rows@), 0) == Some(e),
        },
{
    let ghost uv = user_views(users@);
    let ghost rv = row_views(rows@);
    let mut txns: Vec<Transaction> = Vec::new();
    let mut lo: u64 = 0;
    proof {
        assert(rv.skip(0) =~= rv);
        assert(txn_views(txns@) =~= conv_rows(rv.take(0)));
    }
    let mut k: usize = 0;
    while k < rows.len()
        invariant
            k <= rows@.len(),
            uv == user_views(users@),
            rv == row_views(rows@),
            txn_views(txns@) == conv_rows(rv.take(k as int)),
            rows_err(uv, rv, 0) == rows_err(uv, rv.skip(k as int), lo as int),
            k > 0 ==> lo == rv[k as int - 1].id + 1,
        decreases rows@.len() - k,
    {
        let ghost rest = rv.skip(k as int);
        let ghost lo0 = lo as int;
        let row = &rows[k];
        proof {
            assert(row@ == rv[k as int]);
            assert(rest[0] == rv[k as int]);
        }
        let kind = match parse_kind(&row.kind) {
            None => { return Err(LedgerError::InvalidAmount); },
            Some(kd) => kd,
        };
        let ts = match parse_timestamp(&row.date) {
            None => { return Err(LedgerError::MalformedTimestamp); },
            Some(ts) => ts,
        };
        let fi = find_index(users, &row.username);
        if fi.is_none() {
            return Err(LedgerError::ConstraintViolation);
        }
        proof {
            assert(name_at(uv, row@.username, fi->Some_0 as int));
        }
        if row.amount == 0 {
            return Err(LedgerError::ConstraintViolation);
        }
        if row.id < lo || row.id == u64::MAX {
            return Err(LedgerError::ConstraintViolation);
        }
        txns.push(
            Transaction {
                id: row.id,
                username: row.username.clone(),
                kind,
                amount: row.amount,
                date: ts,
                description: row.description.clone(),
            },
        );
        lo = row.id + 1;
        proof {
            assert(row_err(uv, rest[0], lo0) is None);
            assert(rest.skip(1) =~= rv.skip(k + 1));
            assert(conv_rows(rv.take(k + 1)) =~= conv_rows(rv.take(k as int)).push(
                conv_row(rv[k as int]),
            ));
            assert(txn_views(txns@) =~= conv_rows(rv.take(k as int)).push(conv_row(rv[k as int])));
        }
        k += 1;
    }
    proof {
        assert(rv.skip(rv.len() as int).len() == 0);
    }
    Ok(txns)
}

/// Whether every stored balance equals the sum of its user's amounts.
fn balances_match(users: &Vec<User>, txns: &Vec<Transaction>) -> (r: bool)
    ensures
        r == !balance_drift(user_views(users@), txn_views(txns@)),
{
    let ghost uv = user_views(users@);
    let ghost tv = txn_views(txns@);
    let mut i: usize = 0;
    while i < users.len()
        invariant
            i <= users@.len(),
            uv == user_views(users@),
            tv == txn_views(txns@),
            forall|a: int|
                0 <= a < i ==> (#[trigger] uv[a]).balance as int == sum_for(tv, uv[a].username),
        decreases users@.len() - i,
    {
        let mut acc: i128 = 0;
        let mut k: usize = 0;
        while k < txns.len()
            invariant
                k <= txns@.len(),
                i < users@.len(),
                uv == user_views(users@),
                tv == txn_views(txns@),
                acc as int == sum_for(tv.take(k as int), uv[i as int].username),
                -(k as int) * 0x8000_0000_0000_0000 <= acc as int <= (k as int)
                    * 0x8000_0000_0000_0000,
            decreases txns@.len() - k,
        {
            let ghost prefix = tv.take(k as int);
            let t = &txns[k];
            proof {
                assert(t@ == tv[k as int]);
                assert(tv.take(k + 1).drop_last() =~= prefix);
                assert(tv.take(k + 1).last() == tv[k as int]);
            }
            if t.username == users[i].username {
                acc = acc + (t.amount as i128);
            }
            k += 1;
        }
        proof {
            assert(tv.take(tv.len() as int) =~= tv);
        }
        if acc != (users[i].balance as i128) {
            proof {
                assert(uv[i as int].balance as int != sum_for(tv, uv[i as int].username));
            }
            return false;
        }
        i += 1;
    }
    true
}

/// The index of the user named `name`, if any.
fn find_index(users: &Vec<User>, name: &String) -> (r: Option<usize>)
    ensures
        match r {
            Some(i) => name_at(user_views(users@), name@, i as int),
            None => !has_name(user_views(users@), name@),
        },
{
    let mut j: usize = 0;
    while j < users.len()
        invariant
            j <= users@.len(),
            forall|k: int| 0 <= k < j ==> (#[trigger] user_views(users@)[k]).username != name@,
        decreases users@.len() - j,
    {
        if users[j].username == *name {
            return Some(j);
        }
        j += 1;
    }
    None
}

impl Ledger {
    /// An empty ledger.
    pub fn new() -> (r: Ledger)
        ensures
            r@.users == Seq::<UserV>::empty(),
            r@.txns == Seq::<TransactionV>::empty(),
            r@.next_id == 1,
            ledger_inv(r@),
    {
        let l = Ledger { users: Vec::new(), txns: Vec::new(), next_id: 1 };
        proof {
            assert(l@.users =~= Seq::<UserV>::empty());
            assert(l@.txns =~= Seq::<TransactionV>::empty());
        }
        l
    }

    /// Rebuilds the ledger from a stored snapshot, re-checking every
    /// structural constraint before accepting the data: unique usernames,
    /// known kind labels, readable dates, known owners, non-zero amounts,
    /// ids in insertion order, and each balance equal to the sum of its
    /// user's rows.
    pub fn load(users: Vec<User>, rows: Vec<TxnRow>) -> (r: Result<Ledger, LedgerError>)
        ensures
            match r {
                Ok(l) => {
                    &&& load_err(user_views(users@), row_views(rows@)) is None
                    &&& l@ == load_result(user_views(users@), row_views(rows@))
                    &&& ledger_inv(l@)
                },
                Err(e) => load_err(user_views(users@), row_views(rows@)) == Some(e),
            },
    {
        let ghost uv = user_views(users@);
        let ghost rv = row_views(rows@);
        if has_duplicate(&users) {
            return Err(LedgerError::ConstraintViolation);
        }
        let txns = match convert_rows(&users, &rows) {
            Err(e) => { return Err(e); },
            Ok(t) => t,
        };
        if !balances_match(&users, &txns) {
            return Err(LedgerError::ConstraintViolation);
        }
        let next_id: u64 = if rows.len() == 0 {
            1
        } else {
            rows[rows.len() - 1].id + 1
        };
        let l = Ledger { users, txns, next_id };
        proof {
            lemma_rows_valid(uv, rv, 0);
            assert(l@ =~= load_result(uv, rv));
            assert(forall|a: int| 0 <= a < rv.len() ==> #[trigger] l@.txns[a] == conv_row(rv[a]));
            assert forall|a: int| 0 <= a < l@.txns.len() implies has_name(
                l@.users,
                (#[trigger] l@.txns[a]).username,
            ) by {
                assert(l@.txns[a] == conv_row(rv[a]));
                assert(has_name(uv, rv[a].username));
            }
            assert forall|a: int| 0 <= a < l@.txns.len() implies (#[trigger] l@.txns[a]).id
                < l@.next_id by {
                assert(l@.txns[a] == conv_row(rv[a]));
                if a < rv.len() - 1 {
                    assert(rv[a].id < rv[rv.len() - 1].id);
                }
            }
            assert(ledger_inv(l@));
        }
        Ok(l)
    }

    /// Records one transaction against an existing user, dated `now`:
    /// translates the magnitude through the sign table, adjusts the user's
    /// balance and appends the justifying row, as one paired update.
    ///
    /// Fails with `UserNotFound` exactly when the user does not exist, with
    /// `InvalidAmount` exactly when the magnitude is zero or the amount or
    /// resulting balance is unrepresentable, and leaves the state untouched
    /// on every failure.
    pub fn apply_transaction_at(
        &mut self,
        username: &String,
        magnitude: u64,
        kind: Kind,
        description: String,
        now: i64,
    ) -> (r: Result<Transaction, LedgerError>)
        requires
            ledger_inv(old(self)@),
        ensures
            ledger_inv(final(self)@),
            match r {
                Ok(t) => {
                    &&& apply_err(old(self)@, username@, kind, magnitude) is None
                    &&& t@ == new_txn(old(self)@, username@, kind, magnitude, description@, now)
                    &&& final(self)@ == apply_result(
                        old(self)@,
                        username@,
                        kind,
                        magnitude,
                        description@,
                        now,
                    )
                },
                Err(e) => {
                    &&& apply_err(old(self)@, username@, kind, magnitude) == Some(e)
                    &&& final(self)@ == old(self)@
                },
            },
    {
        let i = match find_index(&self.users, username) {
            None => { return Err(LedgerError::UserNotFound); },
            Some(i) => i,
        };
        if magnitude == 0 || magnitude > i64::MAX as u64 {
            return Err(LedgerError::InvalidAmount);
        }
        let amount = translate(kind, magnitude);
        let b = self.users[i].balance;
        proof {
            assert(b as int == balance_of(self@, username@));
        }
        if amount > 0 && b > i64::MAX - amount {
            return Err(LedgerError::InvalidAmount);
        }
        if amount < 0 && b < i64::MIN - amount {
            return Err(LedgerError::InvalidAmount);
        }
        if self.next_id == u64::MAX {
            return Err(LedgerError::ConstraintViolation);
        }
        let t = Transaction {
            id: self.next_id,
            username: username.clone(),
            kind,
            amount,
            date: now,
            description,
        };
        let ghost pre = self@;
        self.users[i].balance = b + amount;
        self.txns.push(t.duplicate());
        self.next_id = self.next_id + 1;
        proof {
            assert(self@.users =~= pre.users.update(
                i as int,
                UserV {
                    username: pre.users[i as int].username,
                    balance: (pre.users[i as int].balance + signed_of(kind, magnitude)) as i64,
                },
            ));
            assert(self@.txns =~= pre.txns.push(
                new_txn(pre, username@, kind, magnitude, description@, now),
            ));
            self.lemma_apply_effect(pre, username@, kind, magnitude, description@, now, i as int);
        }
        Ok(t)
    }

    /// The post-state of a successful application matches [`apply_result`]
    /// and keeps the invariant.
    proof fn lemma_apply_effect(
        &self,
        pre: LedgerV,
        name: Seq<char>,
        kind: Kind,
        m: u64,
        desc: Seq<char>,
        now: i64,
        i: int,
    )
        requires
            ledger_inv(pre),
            name_at(pre.users, name, i),
            0 < m <= i64::MAX,
            fits_i64(balance_of(pre, name) + signed_of(kind, m)),
            pre.next_id < u64::MAX,
            self@.users == pre.users.update(
                i,
                UserV {
                    username: pre.users[i].username,
                    balance: (pre.users[i].balance + signed_of(kind, m)) as i64,
                },
            ),
            self@.txns == pre.txns.push(new_txn(pre, name, kind, m, desc, now)),
            self@.next_id == pre.next_id + 1,
        ensures
            self@ == apply_result(pre, name, kind, m, desc, now),
            ledger_inv(self@),
    {
        let delta = signed_of(kind, m);
        let t = new_txn(pre, name, kind, m, desc, now);
        let post = apply_result(pre, name, kind, m, desc, now);
        assert forall|j: int| 0 <= j < pre.users.len() implies adjusted(pre.users, name, delta)[j]
            == self@.users[j] by {
            if j != i {
                if pre.users[j].username == name {
                    assert(false);
                }
            }
        }
        assert(self@.users =~= adjusted(pre.users, name, delta));
        assert(self@ =~= post);
        assert forall|j: int| 0 <= j < post.users.len() implies (#[trigger] post.users[j]).balance
            as int == sum_for(post.txns, post.users[j].username) by {
            lemma_sum_push(pre.txns, t, post.users[j].username);
        }
        assert forall|j: int| 0 <= j < post.txns.len() implies has_name(
            post.users,
            (#[trigger] post.txns[j]).username,
        ) by {
            if j < pre.txns.len() {
                let w = choose|k: int| name_at(pre.users, pre.txns[j].username, k);
                assert(name_at(post.users, post.txns[j].username, w));
            } else {
                assert(name_at(post.users, name, i));
            }
        }
    }

    /// Creates a user with balance zero and, for a non-zero initial
    /// magnitude, immediately records the seed transaction, dated `now`,
    /// with the same kind and description.
    ///
    /// Fails with `DuplicateUser` exactly when the username already exists,
    /// and mutates nothing on any failure.
    pub fn create_user_at(
        &mut self,
        username: String,
        magnitude: u64,
        kind: Kind,
        description: String,
        now: i64,
    ) -> (r: Result<Option<Transaction>, LedgerError>)
        requires
            ledger_inv(old(self)@),
        ensures
            ledger_inv(final(self)@),
            match r {
                Ok(opt) => {
                    &&& create_err(old(self)@, username@, magnitude) is None
                    &&& final(self)@ == create_result(
                        old(self)@,
                        username@,
                        kind,
                        magnitude,
                        description@,
                        now,
                    )
                    &&& match opt {
                        None => magnitude == 0,
                        Some(t) => magnitude != 0 && t@ == new_txn(
                            old(self)@,
                            username@,
                            kind,
                            magnitude,
                            description@,
                            now,
                        ),
                    }
                },
                Err(e) => {
                    &&& create_err(old(self)@, username@, magnitude) == Some(e)
                    &&& final(self)@ == old(self)@
                },
            },
    {
        if find_index(&self.users, &username).is_some() {
            return Err(LedgerError::DuplicateUser);
        }
        if magnitude > i64::MAX as u64 {
            return Err(LedgerError::InvalidAmount);
        }
        let ghost pre = self@;
        let ghost name = username@;
        if magnitude == 0 {
            self.users.push(User { username, balance: 0 });
            proof {
                assert(self@.users =~= pre.users.push(UserV { username: name, balance: 0 }));
                assert(self@ =~= create_result(pre, name, kind, magnitude, description@, now));
                self.lemma_create_effect(pre, name, kind, magnitude, description@, now);
            }
            return Ok(None);
        }
        if self.next_id == u64::MAX {
            return Err(LedgerError::ConstraintViolation);
        }
        let amount = translate(kind, magnitude);
        let t = Transaction {
            id: self.next_id,
            username: username.clone(),
            kind,
            amount,
            date: now,
            description,
        };
        let ghost tv = t@;
        self.users.push(User { username, balance: amount });
        self.txns.push(t.duplicate());
        self.next_id = self.next_id + 1;
        proof {
            assert(self@.users =~= pre.users.push(
                UserV { username: name, balance: (signed_of(kind, magnitude) as i64) },
            ));
            assert(self@.txns =~= pre.txns.push(
                new_txn(pre, name, kind, magnitude, tv.description, now),
            ));
            assert(self@ =~= create_result(pre, name, kind, magnitude, tv.description, now));
            self.lemma_create_effect(pre, name, kind, magnitude, tv.description, now);
        }
        Ok(Some(t))
    }

    /// The post-state of a successful creation matches [`create_result`]
    /// and keeps the invariant.
    proof fn lemma_create_effect(
        &self,
        pre: LedgerV,
        name: Seq<char>,
        kind: Kind,
        m: u64,
        desc: Seq<char>,
        now: i64,
    )
        requires
            ledger_inv(pre),
            !has_name(pre.users, name),
            m <= i64::MAX,
            m != 0 ==> pre.next_id < u64::MAX,
            self@ == create_result(pre, name, kind, m, desc, now),
        ensures
            ledger_inv(self@),
    {
        lemma_signed_fits(kind, m);
        let post = self@;
        let n = pre.users.len() as int;
        assert forall|j: int| 0 <= j < pre.txns.len() implies (#[trigger] pre.txns[j]).username
            != name by {
            if pre.txns[j].username == name {
                let w = choose|k: int| name_at(pre.users, pre.txns[j].username, k);
                assert(name_at(pre.users, name, w));
            }
        }
        lemma_sum_absent(pre.txns, name);
        assert forall|i: int| 0 <= i < n implies (#[trigger] post.users[i]).username != name by {
            if pre.users[i].username == name {
                assert(name_at(pre.users, name, i));
            }
        }
        if m == 0 {
            assert forall|j: int| 0 <= j < post.users.len() implies (#[trigger] post.users[j]).balance
                as int == sum_for(post.txns, post.users[j].username) by {}
            assert forall|j: int| 0 <= j < post.txns.len() implies has_name(
                post.users,
                (#[trigger] post.txns[j]).username,
            ) by {
                let w = choose|k: int| name_at(pre.users, pre.txns[j].username, k);
                assert(name_at(post.users, post.txns[j].username, w));
            }
        } else {
            let t = new_txn(pre, name, kind, m, desc, now);
            assert forall|j: int| 0 <= j < post.users.len() implies (#[trigger] post.users[j]).balance
                as int == sum_for(post.txns, post.users[j].username) by {
                lemma_sum_push(pre.txns, t, post.users[j].username);
            }
            assert forall|j: int| 0 <= j < post.txns.len() implies has_name(
                post.users,
                (#[trigger] post.txns[j]).username,
            ) by {
                if j < pre.txns.len() {
                    let w = choose|k: int| name_at(pre.users, pre.txns[j].username, k);
                    assert(name_at(post.users, post.txns[j].username, w));
                } else {
                    assert(name_at(post.users, name, n));
                }
            }
        }
    }

    /// Creates a user as [`Ledger::create_user_at`] does, dating any seed
    /// transaction with the current clock; the returned row's own `date`
    /// field names the instant the clock gave.
    pub fn create_user(
        &mut self,
        username: String,
        magnitude: u64,
        kind: Kind,
        description: String,
    ) -> (r: Result<Option<Transaction>, LedgerError>)
        requires
            ledger_inv(old(self)@),
        ensures
            ledger_inv(final(self)@),
            match r {
                Ok(opt) => {
                    &&& create_err(old(self)@, username@, magnitude) is None
                    &&& match opt {
                        None => magnitude == 0 && final(self)@ == create_result(
                            old(self)@,
                            username@,
                            kind,
                            magnitude,
                            description@,
                            0,
                        ),
                        Some(t) => magnitude != 0 && t@ == new_txn(
                            old(self)@,
                            username@,
                            kind,
                            magnitude,
                            description@,
                            t@.date,
                        ) && final(self)@ == create_result(
                            old(self)@,
                            username@,
                            kind,
                            magnitude,
                            description@,
                            t@.date,
                        ),
                    }
                },
                Err(e) => {
                    &&& create_err(old(self)@, username@, magnitude) == Some(e)
                    &&& final(self)@ == old(self)@
                },
            },
    {
        let now = current_timestamp();
        self.create_user_at(username, magnitude, kind, description, now)
    }

    /// Records one transaction against an existing user, dated with the
    /// current clock. The appended row's own `date` field names the instant
    /// the clock gave.
    pub fn apply_transaction(
        &mut self,
        username: &String,
        magnitude: u64,
        kind: Kind,
        description: String,
    ) -> (r: Result<Transaction, LedgerError>)
        requires
            ledger_inv(old(self)@),
        ensures
            ledger_inv(final(self)@),
            match r {
                Ok(t) => {
                    &&& apply_err(old(self)@, username@, kind, magnitude) is None
                    &&& t@ == new_txn(old(self)@, username@, kind, magnitude, description@, t@.date)
                    &&& final(self)@ == apply_result(
                        old(self)@,
                        username@,
                        kind,
                        magnitude,
                        description@,
                        t@.date,
                    )
                },
                Err(e) => {
                    &&& apply_err(old(self)@, username@, kind, magnitude) == Some(e)
                    &&& final(self)@ == old(self)@
                },
            },
    {
        let now = current_timestamp();
        self.apply_transaction_at(username, magnitude, kind, description, now)
    }

    /// The balance and the up-to-`limit` most recent transactions of one
    /// user, newest first. Fails with `UserNotFound` exactly when the user
    /// does not exist; a user with no transactions gets an empty list, not
    /// an error.
    pub fn check(&self, username: &String, limit: usize) -> (r: Result<
        UserWithTransactions,
        LedgerError,
    >)
        requires
            ledger_inv(self@),
        ensures
            match r {
                Ok(uwt) => {
                    &&& has_name(self@.users, username@)
                    &&& uwt.user@.username == username@
                    &&& uwt.user@.balance as int == balance_of(self@, username@)
                    &&& txn_views(uwt.transactions@) == top(
                        txns_of(self@.txns, username@),
                        limit as int,
                    )
                },
                Err(e) => {
                    &&& e == LedgerError::UserNotFound
                    &&& !has_name(self@.users, username@)
                },
            },
    {
        let i = match find_index(&self.users, username) {
            None => { return Err(LedgerError::UserNotFound); },
            Some(i) => i,
        };
        let balance = self.users[i].balance;
        let out = self.recent_of(username, limit);
        Ok(
            UserWithTransactions {
                user: User { username: username.clone(), balance },
                transactions: out,
            },
        )
    }

    /// The up-to-`limit` most recent transactions of one user, newest
    /// first.
    fn recent_of(&self, username: &String, limit: usize) -> (out: Vec<Transaction>)
        ensures
            txn_views(out@) == top(txns_of(self@.txns, username@), limit as int),
    {
        let ghost all = txn_views(self.txns@);
        let ghost name = username@;
        let mut out: Vec<Transaction> = Vec::new();
        proof {
            assert(txn_views(out@) =~= Seq::<TransactionV>::empty());
            assert(all.take(0) =~= Seq::<TransactionV>::empty());
        }
        let mut k: usize = 0;
        while k < self.txns.len()
            invariant
                k <= self.txns@.len(),
                all == txn_views(self.txns@),
                name == username@,
                txn_views(out@) == sort_desc(txns_of(all.take(k as int), name)),
            decreases self.txns@.len() - k,
        {
            let ghost prefix = all.take(k as int);
            let ghost sel = txns_of(prefix, name);
            let tx = &self.txns[k];
            proof {
                assert(tx@ == all[k as int]);
                assert(all.take(k + 1).drop_last() =~= prefix);
                assert(all.take(k + 1).last() == all[k as int]);
            }
            if tx.username == *username {
                sorted_insert(&mut out, tx.duplicate());
                proof {
                    assert(txns_of(all.take(k + 1), name) == sel.push(tx@));
                    assert(sel.push(tx@).drop_last() =~= sel);
                    assert(sort_desc(sel.push(tx@)) == insert_desc(sort_desc(sel), tx@));
                }
            }
            k += 1;
        }
        proof {
            assert(all.take(all.len() as int) =~= all);
            lemma_sort_desc_len(txns_of(all, name));
        }
        let ghost sorted = sort_desc(txns_of(all, name));
        let ghost n = txns_of(all, name).len() as int;
        out.truncate(limit);
        proof {
            if limit as int <= n {
                assert(txn_views(out@) =~= sorted.subrange(0, limit as int));
            } else {
                assert(txn_views(out@) =~= sorted.take(n));
            }
        }
        out
    }

    /// The up-to-`limit` most recent transactions across all users, newest
    /// first.
    pub fn history(&self, limit: usize) -> (out: Vec<Transaction>)
        requires
            ledger_inv(self@),
        ensures
            txn_views(out@) == top(self@.txns, limit as int),
    {
        let ghost all = txn_views(self.txns@);
        let mut out: Vec<Transaction> = Vec::new();
        proof {
            assert(txn_views(out@) =~= Seq::<TransactionV>::empty());
            assert(all.take(0) =~= Seq::<TransactionV>::empty());
        }
        let mut k: usize = 0;
        while k < self.txns.len()
            invariant
                k <= self.txns@.len(),
                all == txn_views(self.txns@),
                txn_views(out@) == sort_desc(all.take(k as int)),
            decreases self.txns@.len() - k,
        {
            let ghost prefix = all.take(k as int);
            let tx = &self.txns[k];
            proof {
                assert(tx@ == all[k as int]);
                assert(all.take(k + 1).drop_last() =~= prefix);
                assert(all.take(k + 1).last() == all[k as int]);
            }
            sorted_insert(&mut out, tx.duplicate());
            k += 1;
        }
        proof {
            assert(all.take(all.len() as int) =~= all);
            lemma_sort_desc_len(all);
        }
        let ghost sorted = sort_desc(all);
        out.truncate(limit);
        proof {
            if limit as int <= all.len() as int {
                assert(txn_views(out@) =~= sorted.subrange(0, limit as int));
            } else {
                assert(txn_views(out@) =~= sorted.take(all.len() as int));
            }
        }
        out
    }
}

} // verus!
