use utang::domain::{Kind, LedgerError, Transaction, TxnRow, User};
use utang::ledger::Ledger;

fn user(name: &str, balance: i64) -> User {
    User {
        username: name.to_string(),
        balance,
    }
}

fn row(id: u64, name: &str, kind: &str, amount: i64, date: &str, desc: &str) -> TxnRow {
    TxnRow {
        id,
        username: name.to_string(),
        kind: kind.to_string(),
        amount,
        date: date.to_string(),
        description: desc.to_string(),
    }
}

fn fresh_user(ledger: &mut Ledger, name: &str) {
    ledger
        .create_user(name.to_string(), 0, Kind::Pay, String::new())
        .expect("creating a fresh user must succeed");
}

#[test]
fn new_user_starts_at_zero() {
    let u = User::new("dana".to_string());
    assert_eq!(u.username, "dana");
    assert_eq!(u.balance, 0);
}

#[test]
fn pay_increases_balance_and_appends_row() {
    let mut l = Ledger::new();
    fresh_user(&mut l, "alice");
    let t = l
        .apply_transaction(&"alice".to_string(), 1000, Kind::Pay, String::new())
        .expect("apply must succeed");
    assert_eq!(t.amount, 1000);
    assert_eq!(t.kind, Kind::Pay);
    let uwt = l.check(&"alice".to_string(), 5).expect("check must succeed");
    assert_eq!(uwt.user.balance, 1000);
    assert_eq!(uwt.transactions.len(), 1);
    assert_eq!(uwt.transactions[0].amount, 1000);
    assert_eq!(uwt.transactions[0].kind, Kind::Pay);
}

#[test]
fn borrow_decreases_balance_and_appends_row() {
    let mut l = Ledger::new();
    fresh_user(&mut l, "alice");
    let t = l
        .apply_transaction(&"alice".to_string(), 500, Kind::Borrow, String::new())
        .expect("apply must succeed");
    assert_eq!(t.amount, -500);
    assert_eq!(t.kind, Kind::Borrow);
    let uwt = l.check(&"alice".to_string(), 5).expect("check must succeed");
    assert_eq!(uwt.user.balance, -500);
    assert_eq!(uwt.transactions.len(), 1);
    assert_eq!(uwt.transactions[0].amount, -500);
}

#[test]
fn receive_and_lend_follow_the_sign_table() {
    assert_eq!(utang::domain::translate(Kind::Pay, 7), 7);
    assert_eq!(utang::domain::translate(Kind::Lend, 7), 7);
    assert_eq!(utang::domain::translate(Kind::Receive, 7), -7);
    assert_eq!(utang::domain::translate(Kind::Borrow, 7), -7);
}

#[test]
fn create_with_zero_magnitude_yields_no_transactions() {
    let mut l = Ledger::new();
    let opt = l
        .create_user("bob".to_string(), 0, Kind::Pay, String::new())
        .expect("create must succeed");
    assert!(opt.is_none());
    let uwt = l.check(&"bob".to_string(), 5).expect("check must succeed");
    assert_eq!(uwt.user.balance, 0);
    assert!(uwt.transactions.is_empty());
}

#[test]
fn create_with_seed_magnitude_records_one_transaction() {
    let mut l = Ledger::new();
    let t = l
        .create_user("carol".to_string(), 200, Kind::Lend, "seed".to_string())
        .expect("create must succeed")
        .expect("a non-zero magnitude must record a seed transaction");
    assert_eq!(t.amount, 200);
    assert_eq!(t.description, "seed");
    let uwt = l.check(&"carol".to_string(), 5).expect("check must succeed");
    assert_eq!(uwt.user.balance, 200);
    assert_eq!(uwt.transactions.len(), 1);
    assert_eq!(uwt.transactions[0].amount, 200);
}

fn snapshot(l: &Ledger, name: &str) -> (i64, Vec<(u64, i64, i64, Kind, String)>) {
    let uwt = l.check(&name.to_string(), 5).expect("check must succeed");
    (
        uwt.user.balance,
        uwt.transactions
            .iter()
            .map(|t| (t.id, t.amount, t.date, t.kind, t.description.clone()))
            .collect(),
    )
}

#[test]
fn check_twice_without_mutation_is_identical() {
    let mut l = Ledger::new();
    fresh_user(&mut l, "alice");
    l.apply_transaction(&"alice".to_string(), 75, Kind::Pay, "a".to_string())
        .expect("apply must succeed");
    l.apply_transaction(&"alice".to_string(), 25, Kind::Receive, "b".to_string())
        .expect("apply must succeed");
    assert_eq!(snapshot(&l, "alice"), snapshot(&l, "alice"));
}

#[test]
fn two_applies_accumulate_in_either_order() {
    let mut l1 = Ledger::new();
    fresh_user(&mut l1, "alice");
    l1.apply_transaction(&"alice".to_string(), 100, Kind::Pay, String::new())
        .expect("apply must succeed");
    l1.apply_transaction(&"alice".to_string(), 50, Kind::Pay, String::new())
        .expect("apply must succeed");
    let mut l2 = Ledger::new();
    fresh_user(&mut l2, "alice");
    l2.apply_transaction(&"alice".to_string(), 50, Kind::Pay, String::new())
        .expect("apply must succeed");
    l2.apply_transaction(&"alice".to_string(), 100, Kind::Pay, String::new())
        .expect("apply must succeed");
    let b1 = l1.check(&"alice".to_string(), 5).unwrap().user.balance;
    let b2 = l2.check(&"alice".to_string(), 5).unwrap().user.balance;
    assert_eq!(b1, 150);
    assert_eq!(b2, 150);
}

fn dates(ts: &[Transaction]) -> Vec<(i64, u64)> {
    ts.iter().map(|t| (t.date, t.id)).collect()
}

#[test]
fn history_caps_rows_and_sorts_by_date_then_id_descending() {
    let mut l = Ledger::new();
    fresh_user(&mut l, "alice");
    fresh_user(&mut l, "bob");
    let a = "alice".to_string();
    let b = "bob".to_string();
    l.apply_transaction_at(&a, 10, Kind::Pay, String::new(), 100)
        .expect("apply must succeed");
    l.apply_transaction_at(&b, 20, Kind::Pay, String::new(), 300)
        .expect("apply must succeed");
    l.apply_transaction_at(&a, 30, Kind::Pay, String::new(), 200)
        .expect("apply must succeed");
    l.apply_transaction_at(&b, 40, Kind::Pay, String::new(), 200)
        .expect("apply must succeed");
    let out = l.history(3);
    assert_eq!(out.len(), 3);
    let got = dates(&out);
    // date 300 first; the two date-200 rows tie, broken by descending id
    assert_eq!(got[0].0, 300);
    assert_eq!(got[1].0, 200);
    assert_eq!(got[2].0, 200);
    assert!(got[1].1 > got[2].1);
    for w in got.windows(2) {
        assert!(w[0].0 > w[1].0 || (w[0].0 == w[1].0 && w[0].1 > w[1].1));
    }
}

#[test]
fn history_returns_fewer_rows_when_fewer_exist() {
    let mut l = Ledger::new();
    fresh_user(&mut l, "alice");
    l.apply_transaction_at(&"alice".to_string(), 10, Kind::Pay, String::new(), 1)
        .expect("apply must succeed");
    assert_eq!(l.history(3).len(), 1);
}

#[test]
fn check_caps_rows_at_the_limit_keeping_the_newest() {
    let mut l = Ledger::new();
    fresh_user(&mut l, "alice");
    let a = "alice".to_string();
    for day in 1..=6 {
        l.apply_transaction_at(&a, 10, Kind::Pay, String::new(), day)
            .expect("apply must succeed");
    }
    let uwt = l.check(&a, 5).expect("check must succeed");
    assert_eq!(uwt.transactions.len(), 5);
    assert_eq!(dates(&uwt.transactions)[0].0, 6);
    assert_eq!(dates(&uwt.transactions)[4].0, 2);
}

#[test]
fn check_unknown_user_fails_with_user_not_found() {
    let mut l = Ledger::new();
    fresh_user(&mut l, "alice");
    let r = l.check(&"nonexistent".to_string(), 5);
    assert_eq!(r.err(), Some(LedgerError::UserNotFound));
}

#[test]
fn apply_to_unknown_user_fails_with_user_not_found() {
    let mut l = Ledger::new();
    let r = l.apply_transaction(&"ghost".to_string(), 10, Kind::Pay, String::new());
    assert_eq!(r.err(), Some(LedgerError::UserNotFound));
}

#[test]
fn duplicate_creation_fails_without_mutating() {
    let mut l = Ledger::new();
    fresh_user(&mut l, "alice");
    l.apply_transaction(&"alice".to_string(), 10, Kind::Pay, String::new())
        .expect("apply must succeed");
    let before = snapshot(&l, "alice");
    let r = l.create_user("alice".to_string(), 99, Kind::Pay, String::new());
    assert_eq!(r.err(), Some(LedgerError::DuplicateUser));
    assert_eq!(snapshot(&l, "alice"), before);
}

#[test]
fn zero_magnitude_fails_with_invalid_amount() {
    let mut l = Ledger::new();
    fresh_user(&mut l, "alice");
    let r = l.apply_transaction(&"alice".to_string(), 0, Kind::Pay, String::new());
    assert_eq!(r.err(), Some(LedgerError::InvalidAmount));
}

#[test]
fn kind_labels_round_trip_and_reject_unknown_text() {
    for k in [Kind::Pay, Kind::Receive, Kind::Lend, Kind::Borrow] {
        assert_eq!(utang::domain::parse_kind(&k.label()), Some(k));
    }
    assert_eq!(utang::domain::parse_kind(&"gift".to_string()), None);
    assert_eq!(utang::domain::parse_kind(&"Pay".to_string()), None);
}

#[test]
fn load_accepts_a_consistent_snapshot() {
    let users = vec![user("alice", 700)];
    let rows = vec![
        row(1, "alice", "pay", 1000, "2024-01-01T08:00:00+00:00", "x"),
        row(2, "alice", "borrow", -300, "2024-01-02T08:00:00+00:00", "y"),
    ];
    let l = Ledger::load(users, rows).expect("a consistent snapshot must load");
    let uwt = l.check(&"alice".to_string(), 5).expect("check must succeed");
    assert_eq!(uwt.user.balance, 700);
    assert_eq!(uwt.transactions.len(), 2);
    assert_eq!(uwt.transactions[0].amount, -300);
    assert_eq!(uwt.transactions[0].kind, Kind::Borrow);
    assert_eq!(uwt.transactions[1].amount, 1000);
}

#[test]
fn load_orders_history_by_parsed_instant_not_by_text_or_id() {
    // Row 2's text sorts after row 1's, and its id is larger, but the
    // offset makes it the earlier instant: 10:00+09:00 is 01:00Z.
    let users = vec![user("alice", 300)];
    let rows = vec![
        row(1, "alice", "pay", 100, "2024-01-02T05:00:00+00:00", ""),
        row(2, "alice", "pay", 200, "2024-01-02T10:00:00+09:00", ""),
    ];
    let l = Ledger::load(users, rows).expect("a consistent snapshot must load");
    let out = l.history(5);
    assert_eq!(out.len(), 2);
    assert_eq!(out[0].id, 1);
    assert_eq!(out[1].id, 2);
}

#[test]
fn load_rejects_an_unreadable_date() {
    let users = vec![user("alice", 10)];
    let rows = vec![row(1, "alice", "pay", 10, "yesterday", "")];
    let r = Ledger::load(users, rows);
    assert_eq!(r.err(), Some(LedgerError::MalformedTimestamp));
}

#[test]
fn load_rejects_an_unknown_kind_label() {
    let users = vec![user("alice", 10)];
    let rows = vec![row(1, "alice", "gift", 10, "2024-01-01T00:00:00+00:00", "")];
    let r = Ledger::load(users, rows);
    assert_eq!(r.err(), Some(LedgerError::InvalidAmount));
}

#[test]
fn load_rejects_duplicate_usernames() {
    let users = vec![user("alice", 0), user("alice", 0)];
    let r = Ledger::load(users, vec![]);
    assert_eq!(r.err(), Some(LedgerError::ConstraintViolation));
}

#[test]
fn load_rejects_a_row_without_its_user() {
    let users = vec![user("alice", 0)];
    let rows = vec![row(1, "bob", "pay", 10, "2024-01-01T00:00:00+00:00", "")];
    let r = Ledger::load(users, rows);
    assert_eq!(r.err(), Some(LedgerError::ConstraintViolation));
}

#[test]
fn load_rejects_a_zero_amount_row() {
    let users = vec![user("alice", 0)];
    let rows = vec![row(1, "alice", "pay", 0, "2024-01-01T00:00:00+00:00", "")];
    let r = Ledger::load(users, rows);
    assert_eq!(r.err(), Some(LedgerError::ConstraintViolation));
}

#[test]
fn load_rejects_ids_out_of_insertion_order() {
    let users = vec![user("alice", 30)];
    let rows = vec![
        row(2, "alice", "pay", 10, "2024-01-01T00:00:00+00:00", ""),
        row(1, "alice", "pay", 20, "2024-01-02T00:00:00+00:00", ""),
    ];
    let r = Ledger::load(users, rows);
    assert_eq!(r.err(), Some(LedgerError::ConstraintViolation));
}

#[test]
fn load_rejects_a_drifting_balance() {
    let users = vec![user("alice", 5)];
    let r = Ledger::load(users, vec![]);
    assert_eq!(r.err(), Some(LedgerError::ConstraintViolation));
}

#[test]
fn applying_after_load_keeps_the_running_sum() {
    let users = vec![user("alice", 700)];
    let rows = vec![
        row(1, "alice", "pay", 1000, "2024-01-01T08:00:00+00:00", ""),
        row(2, "alice", "borrow", -300, "2024-01-02T08:00:00+00:00", ""),
    ];
    let mut l = Ledger::load(users, rows).expect("a consistent snapshot must load");
    let t = l
        .apply_transaction(&"alice".to_string(), 50, Kind::Receive, String::new())
        .expect("apply must succeed");
    assert_eq!(t.amount, -50);
    assert!(t.id > 2);
    let uwt = l.check(&"alice".to_string(), 5).expect("check must succeed");
    assert_eq!(uwt.user.balance, 650);
    assert_eq!(uwt.transactions.len(), 3);
}
