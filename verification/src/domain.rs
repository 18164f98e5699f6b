//! Core data types: transaction kinds, the sign table, errors, and the
//! user / transaction records the ledger stores.

use vstd::prelude::*;

verus! {

/// The four actions a caller can record. Each one selects the sign that is
/// applied to the caller's unsigned magnitude (see [`kind_sign`]).
#[derive(Clone, Copy, Debug, PartialEq, Eq, Structural)]
pub enum Kind {
    Pay,
    Receive,
    Lend,
    Borrow,
}

/// Everything that can go wrong in the ledger engine.
#[derive(Clone, Copy, Debug, PartialEq, Eq, Structural)]
pub enum LedgerError {
    /// The backing store cannot be opened or created.
    StorageUnavailable,
    /// The named counterparty does not exist.
    UserNotFound,
    /// Creation was rejected because the username already exists.
    DuplicateUser,
    /// A zero or otherwise non-actionable magnitude.
    InvalidAmount,
    /// A stored date failed to parse on read.
    MalformedTimestamp,
    /// The stored data breaks a structural constraint of the schema.
    ConstraintViolation,
}

/// Sign table: pay and lend add to the balance, receive and borrow subtract.
pub open spec fn kind_sign(k: Kind) -> int {
    match k {
        Kind::Pay => 1,
        Kind::Lend => 1,
        Kind::Receive => -1,
        Kind::Borrow => -1,
    }
}

/// The signed amount a magnitude translates to under a kind.
pub open spec fn signed_of(k: Kind, m: u64) -> int {
    kind_sign(k) * m
}

/// Translates an unsigned magnitude into the signed amount stored on a
/// transaction, per the sign table.
pub fn translate(k: Kind, m: u64) -> (r: i64)
    requires
        0 < m <= i64::MAX,
    ensures
        r as int == signed_of(k, m),
        r != 0,
{
    match k {
        Kind::Pay | Kind::Lend => m as i64,
        Kind::Receive | Kind::Borrow => -(m as i64),
    }
}

/// The textual label a kind is stored and displayed under.
pub open spec fn kind_label(k: Kind) -> Seq<char> {
    match k {
        Kind::Pay => "pay"@,
        Kind::Receive => "receive"@,
        Kind::Lend => "lend"@,
        Kind::Borrow => "borrow"@,
    }
}

impl Kind {
    /// The label of this kind, as stored in the `transaction_type` column.
    pub fn label(self) -> (r: String)
        ensures
            r@ == kind_label(self),
    {
        match self {
            Kind::Pay => "pay".to_owned(),
            Kind::Receive => "receive".to_owned(),
            Kind::Lend => "lend".to_owned(),
            Kind::Borrow => "borrow".to_owned(),
        }
    }
}

/// Which kind, if any, a stored label denotes. Any other string is rejected
/// rather than falling through to a default.
pub open spec fn spec_parse_kind(s: Seq<char>) -> Option<Kind> {
    if s == kind_label(Kind::Pay) {
        Some(Kind::Pay)
    } else if s == kind_label(Kind::Receive) {
        Some(Kind::Receive)
    } else if s == kind_label(Kind::Lend) {
        Some(Kind::Lend)
    } else if s == kind_label(Kind::Borrow) {
        Some(Kind::Borrow)
    } else {
        None
    }
}

/// Parses a stored kind label back into the closed enumeration.
pub fn parse_kind(s: &String) -> (r: Option<Kind>)
    ensures
        r == spec_parse_kind(s@),
{
    if *s == "pay".to_owned() {
        Some(Kind::Pay)
    } else if *s == "receive".to_owned() {
        Some(Kind::Receive)
    } else if *s == "lend".to_owned() {
        Some(Kind::Lend)
    } else if *s == "borrow".to_owned() {
        Some(Kind::Borrow)
    } else {
        None
    }
}

/// One counterparty: a unique username and its running signed balance, in the
/// smallest currency unit.
pub struct User {
    pub username: String,
    pub balance: i64,
}

/// Mathematical image of a [`User`].
pub struct UserV {
    pub username: Seq<char>,
    pub balance: i64,
}

impl View for User {
    type V = UserV;

    open spec fn view(&self) -> UserV {
        UserV { username: self.username@, balance: self.balance }
    }
}

impl User {
    /// A fresh counterparty starts with a zero balance.
    pub fn new(username: String) -> (r: User)
        ensures
            r@.username == username@,
            r@.balance == 0,
    {
        User { username, balance: 0 }
    }
}

/// One immutable monetary event against a single user. `id` reflects
/// insertion order: later transactions carry strictly larger ids.
pub struct Transaction {
    pub id: u64,
    pub username: String,
    pub kind: Kind,
    pub amount: i64,
    pub date: i64,
    pub description: String,
}

/// Mathematical image of a [`Transaction`].
pub struct TransactionV {
    pub id: u64,
    pub username: Seq<char>,
    pub kind: Kind,
    pub amount: i64,
    pub date: i64,
    pub description: Seq<char>,
}

impl View for Transaction {
    type V = TransactionV;

    open spec fn view(&self) -> TransactionV {
        TransactionV {
            id: self.id,
            username: self.username@,
            kind: self.kind,
            amount: self.amount,
            date: self.date,
            description: self.description@,
        }
    }
}

impl Transaction {
    /// An owned copy carrying the same data.
    pub fn duplicate(&self) -> (r: Transaction)
        ensures
            r@ == self@,
    {
        Transaction {
            id: self.id,
            username: self.username.clone(),
            kind: self.kind,
            amount: self.amount,
            date: self.date,
            description: self.description.clone(),
        }
    }
}

/// A raw transaction row as read back from the store, before validation:
/// the kind is still a label and the date still the stored text.
pub struct TxnRow {
    pub id: u64,
    pub username: String,
    pub kind: String,
    pub amount: i64,
    pub date: String,
    pub description: String,
}

/// Mathematical image of a [`TxnRow`].
pub struct TxnRowV {
    pub id: u64,
    pub username: Seq<char>,
    pub kind: Seq<char>,
    pub amount: i64,
    pub date: Seq<char>,
    pub description: Seq<char>,
}

impl View for TxnRow {
    type V = TxnRowV;

    open spec fn view(&self) -> TxnRowV {
        TxnRowV {
            id: self.id,
            username: self.username@,
            kind: self.kind@,
            amount: self.amount,
            date: self.date@,
            description: self.description@,
        }
    }
}

/// What a single-user query returns: the user's current balance together
/// with its most recent transactions, newest first.
pub struct UserWithTransactions {
    pub user: User,
    pub transactions: Vec<Transaction>,
}

} // verus!
