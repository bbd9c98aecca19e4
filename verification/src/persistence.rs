//! The durable store's format: the whole ledger as one structured text
//! document whose top-level fields are named, and a proof that decoding
//! undoes encoding.

use vstd::prelude::*;
use crate::account::{Account, AccountView};
use crate::bank::{ids_distinct, Bank, BankView};
use crate::codec::{
    emit_i64,
    p_i64,
    p_lit,
    p_str,
    p_u64,
    emit_str,
    emit_u64,
    enc_i64,
    enc_str,
    enc_u64,
    lemma_parse_i64_rt,
    lemma_parse_lit_rt,
    lemma_parse_str_rt,
    lemma_parse_u64_rt,
    parse_i64,
    parse_lit,
    parse_str,
    parse_u64,
};
use crate::customer::{Customer, CustomerView};
use crate::errors::{BankError, BankErrorView, BankResult};
use crate::transaction::{
    transaction_wf,
    Transaction,
    TransactionType,
    TransactionTypeView,
    TransactionView,
};

verus! {

/// A transaction's strings are short enough for their length tokens.
pub open spec fn tx_bounded(t: TransactionView) -> bool {
    &&& t.id.len() <= u64::MAX
    &&& match t.transaction_type {
        TransactionTypeView::Transfer { to_account_id } => to_account_id.len() <= u64::MAX,
        _ => true,
    }
}

/// An account's strings and log are short enough for their tokens.
pub open spec fn account_bounded(a: AccountView) -> bool {
    &&& a.id.len() <= u64::MAX
    &&& a.transactions.len() <= u64::MAX
    &&& forall|i: int| 0 <= i < a.transactions.len() ==> tx_bounded(#[trigger] a.transactions[i])
}

/// A customer's strings are short enough for their tokens.
pub open spec fn customer_bounded(c: CustomerView) -> bool {
    &&& c.id.len() <= u64::MAX
    &&& c.name.len() <= u64::MAX
    &&& c.email.len() <= u64::MAX
    &&& match c.account {
        Some(a) => account_bounded(a),
        None => true,
    }
}

/// A ledger's strings and registry are short enough for their tokens;
/// every value held in a machine-sized ledger is.
pub open spec fn bank_bounded(b: BankView) -> bool {
    &&& b.name.len() <= u64::MAX
    &&& b.customers.len() <= u64::MAX
    &&& forall|i: int| 0 <= i < b.customers.len() ==> customer_bounded(#[trigger] b.customers[i])
}

/// A transaction kind: one marker character; a transfer carries the
/// destination account id.
pub open spec fn enc_kind(k: TransactionTypeView) -> Seq<char> {
    match k {
        TransactionTypeView::Deposit => seq!['D'],
        TransactionTypeView::Withdrawal => seq!['W'],
        TransactionTypeView::Transfer { to_account_id } => seq!['T'] + enc_str(to_account_id),
    }
}

pub open spec fn parse_kind(s: Seq<char>, i: int) -> Option<(TransactionTypeView, int)> {
    if 0 <= i < s.len() {
        if s[i] == 'D' {
            Some((TransactionTypeView::Deposit, i + 1))
        } else if s[i] == 'W' {
            Some((TransactionTypeView::Withdrawal, i + 1))
        } else if s[i] == 'T' {
            match parse_str(s, i + 1) {
                Some((t, j)) => Some((TransactionTypeView::Transfer { to_account_id: t }, j)),
                None => None,
            }
        } else {
            None
        }
    } else {
        None
    }
}

/// One transaction record: id, kind, amount, timestamp, closing balance.
pub open spec fn enc_tx(t: TransactionView) -> Seq<char> {
    enc_str(t.id) + enc_kind(t.transaction_type) + enc_i64(t.amount) + enc_i64(t.timestamp)
        + enc_i64(t.balance_after)
}

pub open spec fn parse_tx(s: Seq<char>, i: int) -> Option<(TransactionView, int)> {
    match parse_str(s, i) {
        Some((id, i1)) => match parse_kind(s, i1) {
            Some((kind, i2)) => match parse_i64(s, i2) {
                Some((amount, i3)) => match parse_i64(s, i3) {
                    Some((timestamp, i4)) => match parse_i64(s, i4) {
                        Some((balance_after, i5)) => Some(
                            (
                                TransactionView {
                                    id,
                                    transaction_type: kind,
                                    amount,
                                    timestamp,
                                    balance_after,
                                },
                                i5,
                            ),
                        ),
                        None => None,
                    },
                    None => None,
                },
                None => None,
            },
            None => None,
        },
        None => None,
    }
}

/// A transaction log, first record first.
pub open spec fn enc_txs(ts: Seq<TransactionView>) -> Seq<char>
    decreases ts.len(),
{
    if ts.len() == 0 {
        Seq::empty()
    } else {
        enc_tx(ts[0]) + enc_txs(ts.drop_first())
    }
}

pub open spec fn parse_txs(s: Seq<char>, i: int, n: nat) -> Option<(Seq<TransactionView>, int)>
    decreases n,
{
    if n == 0 {
        Some((Seq::empty(), i))
    } else {
        match parse_tx(s, i) {
            Some((t, j)) => match parse_txs(s, j, (n - 1) as nat) {
                Some((ts, k)) => Some((seq![t] + ts, k)),
                None => None,
            },
            None => None,
        }
    }
}

/// One account: id, balance, creation time, then the log behind a count.
pub open spec fn enc_account(a: AccountView) -> Seq<char> {
    enc_str(a.id) + enc_i64(a.balance) + enc_i64(a.created_at) + enc_u64(
        a.transactions.len() as int,
    ) + enc_txs(a.transactions)
}

pub open spec fn parse_account(s: Seq<char>, i: int) -> Option<(AccountView, int)> {
    match parse_str(s, i) {
        Some((id, i1)) => match parse_i64(s, i1) {
            Some((balance, i2)) => match parse_i64(s, i2) {
                Some((created_at, i3)) => match parse_u64(s, i3) {
                    Some((n, i4)) => match parse_txs(s, i4, n as nat) {
                        Some((ts, i5)) => Some(
                            (AccountView { id, balance, transactions: ts, created_at }, i5),
                        ),
                        None => None,
                    },
                    None => None,
                },
                None => None,
            },
            None => None,
        },
        None => None,
    }
}

/// The optional account behind a presence marker.
pub open spec fn enc_account_opt(acc: Option<AccountView>) -> Seq<char> {
    match acc {
        Some(a) => seq!['1'] + enc_account(a),
        None => seq!['0'],
    }
}

pub open spec fn parse_account_opt(s: Seq<char>, i: int) -> Option<(Option<AccountView>, int)> {
    if 0 <= i < s.len() && s[i] == '0' {
        Some((None, i + 1))
    } else if 0 <= i < s.len() && s[i] == '1' {
        match parse_account(s, i + 1) {
            Some((a, j)) => Some((Some(a), j)),
            None => None,
        }
    } else {
        None
    }
}

/// A customer's identity: id, name, email.
pub open spec fn enc_customer_ident(c: CustomerView) -> Seq<char> {
    enc_str(c.id) + enc_str(c.name) + enc_str(c.email)
}

pub open spec fn parse_customer_ident(s: Seq<char>, i: int) -> Option<
    ((Seq<char>, Seq<char>, Seq<char>), int),
> {
    match parse_str(s, i) {
        Some((id, i1)) => match parse_str(s, i1) {
            Some((name, i2)) => match parse_str(s, i2) {
                Some((email, i3)) => Some(((id, name, email), i3)),
                None => None,
            },
            None => None,
        },
        None => None,
    }
}

/// One customer: identity, registration time, optional account.
pub open spec fn enc_customer(c: CustomerView) -> Seq<char> {
    enc_customer_ident(c) + enc_i64(c.registered_at) + enc_account_opt(c.account)
}

pub open spec fn parse_customer(s: Seq<char>, i: int) -> Option<(CustomerView, int)> {
    match parse_customer_ident(s, i) {
        Some(((id, name, email), i3)) => match parse_i64(s, i3) {
            Some((registered_at, i4)) => match parse_account_opt(s, i4) {
                Some((account, i5)) => Some(
                    (CustomerView { id, name, email, account, registered_at }, i5),
                ),
                None => None,
            },
            None => None,
        },
        None => None,
    }
}

/// The customer registry, first registered first.
pub open spec fn enc_customers(cs: Seq<CustomerView>) -> Seq<char>
    decreases cs.len(),
{
    if cs.len() == 0 {
        Seq::empty()
    } else {
        enc_customer(cs[0]) + enc_customers(cs.drop_first())
    }
}

pub open spec fn parse_customers(s: Seq<char>, i: int, n: nat) -> Option<
    (Seq<CustomerView>, int),
>
    decreases n,
{
    if n == 0 {
        Some((Seq::empty(), i))
    } else {
        match parse_customer(s, i) {
            Some((c, j)) => match parse_customers(s, j, (n - 1) as nat) {
                Some((cs, k)) => Some((seq![c] + cs, k)),
                None => None,
            },
            None => None,
        }
    }
}

/// The ledger's named header: the `name` field and the
/// `total_transactions` counter.
pub open spec fn enc_bank_header(b: BankView) -> Seq<char> {
    "name="@ + enc_str(b.name) + "total_transactions="@ + enc_u64(b.total_transactions)
}

pub open spec fn parse_bank_header(s: Seq<char>, i: int) -> Option<((Seq<char>, int), int)> {
    match parse_lit(s, i, "name="@) {
        Some(i1) => match parse_str(s, i1) {
            Some((name, i2)) => match parse_lit(s, i2, "total_transactions="@) {
                Some(i3) => match parse_u64(s, i3) {
                    Some((total_transactions, i4)) => Some(((name, total_transactions), i4)),
                    None => None,
                },
                None => None,
            },
            None => None,
        },
        None => None,
    }
}

/// The whole ledger: the named header, then the named `customers` field
/// behind a count.
pub open spec fn enc_bank(b: BankView) -> Seq<char> {
    enc_bank_header(b) + "customers="@ + enc_u64(b.customers.len() as int) + enc_customers(
        b.customers,
    )
}

pub open spec fn parse_bank(s: Seq<char>, i: int) -> Option<(BankView, int)> {
    match parse_bank_header(s, i) {
        Some(((name, total_transactions), i4)) => match parse_lit(s, i4, "customers="@) {
            Some(i5) => match parse_u64(s, i5) {
                Some((n, i6)) => match parse_customers(s, i6, n as nat) {
                    Some((cs, i7)) => Some(
                        (BankView { name, customers: cs, total_transactions }, i7),
                    ),
                    None => None,
                },
                None => None,
            },
            None => None,
        },
        None => None,
    }
}

/// Reading a kind marker back from where it was written.
proof fn lemma_parse_kind_rt(prefix: Seq<char>, k: TransactionTypeView, suffix: Seq<char>)
    requires
        (match k {
            TransactionTypeView::Transfer { to_account_id } => to_account_id.len() <= u64::MAX,
            _ => true,
        }),
    ensures
        parse_kind(prefix + enc_kind(k) + suffix, prefix.len() as int) == Some(
            (k, (prefix.len() + enc_kind(k).len()) as int),
        ),
{
    let s = prefix + enc_kind(k) + suffix;
    let i = prefix.len() as int;
    match k {
        TransactionTypeView::Deposit => {
            assert(s[i] == 'D');
        },
        TransactionTypeView::Withdrawal => {
            assert(s[i] == 'W');
        },
        TransactionTypeView::Transfer { to_account_id } => {
            assert(s[i] == 'T');
            assert(s =~= (prefix + seq!['T']) + enc_str(to_account_id) + suffix);
            lemma_parse_str_rt(prefix + seq!['T'], to_account_id, suffix);
        },
    }
}

/// Reading a transaction record back from where it was written.
#[verifier::rlimit(100)]
proof fn lemma_parse_tx_rt(prefix: Seq<char>, t: TransactionView, suffix: Seq<char>)
    requires
        transaction_wf(t),
        tx_bounded(t),
    ensures
        parse_tx(prefix + enc_tx(t) + suffix, prefix.len() as int) == Some(
            (t, (prefix.len() + enc_tx(t).len()) as int),
        ),
{
    let ea = enc_str(t.id);
    let eb = enc_kind(t.transaction_type);
    let ec = enc_i64(t.amount);
    let ed = enc_i64(t.timestamp);
    let ee = enc_i64(t.balance_after);
    lemma_split5(prefix, ea, eb, ec, ed, ee, suffix);
    lemma_parse_str_rt(prefix, t.id, eb + (ec + (ed + (ee + suffix))));
    lemma_parse_kind_rt(prefix + ea, t.transaction_type, ec + (ed + (ee + suffix)));
    lemma_parse_i64_rt((prefix + ea) + eb, t.amount, ed + (ee + suffix));
    lemma_parse_i64_rt(((prefix + ea) + eb) + ec, t.timestamp, ee + suffix);
    lemma_parse_i64_rt((((prefix + ea) + eb) + ec) + ed, t.balance_after, suffix);
}

/// Reading a transaction log back from where it was written.
#[verifier::rlimit(100)]
proof fn lemma_parse_txs_rt(prefix: Seq<char>, ts: Seq<TransactionView>, suffix: Seq<char>)
    requires
        ts.len() <= u64::MAX,
        forall|i: int|
            0 <= i < ts.len() ==> transaction_wf(#[trigger] ts[i]) && tx_bounded(ts[i]),
    ensures
        parse_txs(prefix + enc_txs(ts) + suffix, prefix.len() as int, ts.len()) == Some(
            (ts, (prefix.len() + enc_txs(ts).len()) as int),
        ),
    decreases ts.len(),
{
    if ts.len() == 0 {
        lemma_split0(prefix, suffix);
        assert(ts =~= Seq::<TransactionView>::empty());
    } else {
        let rest = ts.drop_first();
        lemma_split2(prefix, enc_tx(ts[0]), enc_txs(rest), suffix);
        lemma_parse_tx_rt(prefix, ts[0], enc_txs(rest) + suffix);
        assert(forall|i: int|
            0 <= i < rest.len() ==> transaction_wf(#[trigger] rest[i]) && tx_bounded(rest[i]))
            by {
            assert(forall|i: int| 0 <= i < rest.len() ==> rest[i] == #[trigger] ts[i + 1]);
        }
        lemma_parse_txs_rt(prefix + enc_tx(ts[0]), rest, suffix);
        assert(seq![ts[0]] + rest =~= ts);
    }
}

/// Reading an account back from where it was written.
#[verifier::rlimit(100)]
proof fn lemma_parse_account_rt(prefix: Seq<char>, a: AccountView, suffix: Seq<char>)
    requires
        a.wf(),
        account_bounded(a),
    ensures
        parse_account(prefix + enc_account(a) + suffix, prefix.len() as int) == Some(
            (a, (prefix.len() + enc_account(a).len()) as int),
        ),
{
    let ea = enc_str(a.id);
    let eb = enc_i64(a.balance);
    let ec = enc_i64(a.created_at);
    let ed = enc_u64(a.transactions.len() as int);
    let ee = enc_txs(a.transactions);
    lemma_split5(prefix, ea, eb, ec, ed, ee, suffix);
    lemma_parse_str_rt(prefix, a.id, eb + (ec + (ed + (ee + suffix))));
    lemma_parse_i64_rt(prefix + ea, a.balance, ec + (ed + (ee + suffix)));
    lemma_parse_i64_rt((prefix + ea) + eb, a.created_at, ed + (ee + suffix));
    lemma_parse_u64_rt(((prefix + ea) + eb) + ec, a.transactions.len() as int, ee + suffix);
    lemma_parse_txs_rt((((prefix + ea) + eb) + ec) + ed, a.transactions, suffix);
}

/// Reading an optional account back from where it was written.
proof fn lemma_parse_account_opt_rt(
    prefix: Seq<char>,
    acc: Option<AccountView>,
    suffix: Seq<char>,
)
    requires
        (match acc {
            Some(a) => a.wf() && account_bounded(a),
            None => true,
        }),
    ensures
        parse_account_opt(prefix + enc_account_opt(acc) + suffix, prefix.len() as int) == Some(
            (acc, (prefix.len() + enc_account_opt(acc).len()) as int),
        ),
{
    let s = prefix + enc_account_opt(acc) + suffix;
    let i = prefix.len() as int;
    match acc {
        None => {
            assert(s[i] == '0');
        },
        Some(a) => {
            assert(s[i] == '1');
            assert(s =~= (prefix + seq!['1']) + enc_account(a) + suffix);
            lemma_parse_account_rt(prefix + seq!['1'], a, suffix);
        },
    }
}

/// Reading a customer's identity back from where it was written.
#[verifier::rlimit(100)]
proof fn lemma_parse_customer_ident_rt(prefix: Seq<char>, c: CustomerView, suffix: Seq<char>)
    requires
        customer_bounded(c),
    ensures
        parse_customer_ident(prefix + enc_customer_ident(c) + suffix, prefix.len() as int)
            == Some(
            ((c.id, c.name, c.email), (prefix.len() + enc_customer_ident(c).len()) as int),
        ),
{
    let s = prefix + enc_customer_ident(c) + suffix;
    let p0 = prefix;
    let r0 = enc_str(c.name) + enc_str(c.email) + suffix;
    assert(s =~= p0 + enc_str(c.id) + r0);
    lemma_parse_str_rt(p0, c.id, r0);
    let p1 = p0 + enc_str(c.id);
    let r1 = enc_str(c.email) + suffix;
    assert(s =~= p1 + enc_str(c.name) + r1);
    lemma_parse_str_rt(p1, c.name, r1);
    let p2 = p1 + enc_str(c.name);
    assert(s =~= p2 + enc_str(c.email) + suffix);
    lemma_parse_str_rt(p2, c.email, suffix);
}

/// Regroups a three-part payload between a prefix and a suffix, so each
/// part can be read in turn.
proof fn lemma_split3(prefix: Seq<char>, a: Seq<char>, b: Seq<char>, c: Seq<char>, suffix: Seq<
    char,
>)
    ensures
        prefix + (a + b + c) + suffix == prefix + a + (b + (c + suffix)),
        prefix + (a + b + c) + suffix == (prefix + a) + b + (c + suffix),
        prefix + (a + b + c) + suffix == ((prefix + a) + b) + c + suffix,
{
    assert(prefix + (a + b + c) + suffix =~= prefix + a + (b + (c + suffix)));
    assert(prefix + (a + b + c) + suffix =~= (prefix + a) + b + (c + suffix));
    assert(prefix + (a + b + c) + suffix =~= ((prefix + a) + b) + c + suffix);
}

/// An empty payload between a prefix and a suffix disappears.
proof fn lemma_split0(prefix: Seq<char>, suffix: Seq<char>)
    ensures
        prefix + Seq::<char>::empty() + suffix == prefix + suffix,
{
    assert(prefix + Seq::<char>::empty() + suffix =~= prefix + suffix);
}

/// Regroups a two-part payload between a prefix and a suffix.
proof fn lemma_split2(prefix: Seq<char>, a: Seq<char>, b: Seq<char>, suffix: Seq<char>)
    ensures
        prefix + (a + b) + suffix == prefix + a + (b + suffix),
        prefix + (a + b) + suffix == (prefix + a) + b + suffix,
{
    assert(prefix + (a + b) + suffix =~= prefix + a + (b + suffix));
    assert(prefix + (a + b) + suffix =~= (prefix + a) + b + suffix);
}

/// Regroups a five-part payload between a prefix and a suffix.
proof fn lemma_split5(
    prefix: Seq<char>,
    a: Seq<char>,
    b: Seq<char>,
    c: Seq<char>,
    d: Seq<char>,
    e: Seq<char>,
    suffix: Seq<char>,
)
    ensures
        prefix + (a + b + c + d + e) + suffix == prefix + a + (b + (c + (d + (e + suffix)))),
        prefix + (a + b + c + d + e) + suffix == (prefix + a) + b + (c + (d + (e + suffix))),
        prefix + (a + b + c + d + e) + suffix == ((prefix + a) + b) + c + (d + (e + suffix)),
        prefix + (a + b + c + d + e) + suffix == (((prefix + a) + b) + c) + d + (e + suffix),
        prefix + (a + b + c + d + e) + suffix == ((((prefix + a) + b) + c) + d) + e + suffix,
{
    assert(prefix + (a + b + c + d + e) + suffix =~= prefix + a + (b + (c + (d + (e
        + suffix)))));
    assert(prefix + (a + b + c + d + e) + suffix =~= (prefix + a) + b + (c + (d + (e
        + suffix))));
    assert(prefix + (a + b + c + d + e) + suffix =~= ((prefix + a) + b) + c + (d + (e
        + suffix)));
    assert(prefix + (a + b + c + d + e) + suffix =~= (((prefix + a) + b) + c) + d + (e
        + suffix));
    assert(prefix + (a + b + c + d + e) + suffix =~= ((((prefix + a) + b) + c) + d) + e
        + suffix);
}

/// Regroups a four-part payload between a prefix and a suffix.
proof fn lemma_split4(
    prefix: Seq<char>,
    a: Seq<char>,
    b: Seq<char>,
    c: Seq<char>,
    d: Seq<char>,
    suffix: Seq<char>,
)
    ensures
        prefix + (a + b + c + d) + suffix == prefix + a + (b + (c + (d + suffix))),
        prefix + (a + b + c + d) + suffix == (prefix + a) + b + (c + (d + suffix)),
        prefix + (a + b + c + d) + suffix == ((prefix + a) + b) + c + (d + suffix),
        prefix + (a + b + c + d) + suffix == (((prefix + a) + b) + c) + d + suffix,
{
    assert(prefix + (a + b + c + d) + suffix =~= prefix + a + (b + (c + (d + suffix))));
    assert(prefix + (a + b + c + d) + suffix =~= (prefix + a) + b + (c + (d + suffix)));
    assert(prefix + (a + b + c + d) + suffix =~= ((prefix + a) + b) + c + (d + suffix));
    assert(prefix + (a + b + c + d) + suffix =~= (((prefix + a) + b) + c) + d + suffix);
}

/// Reading a customer back from where it was written.
#[verifier::rlimit(100)]
proof fn lemma_parse_customer_rt(prefix: Seq<char>, c: CustomerView, suffix: Seq<char>)
    requires
        c.wf(),
        customer_bounded(c),
    ensures
        parse_customer(prefix + enc_customer(c) + suffix, prefix.len() as int) == Some(
            (c, (prefix.len() + enc_customer(c).len()) as int),
        ),
{
    let ea = enc_customer_ident(c);
    let eb = enc_i64(c.registered_at);
    let ec = enc_account_opt(c.account);
    lemma_split3(prefix, ea, eb, ec, suffix);
    lemma_parse_customer_ident_rt(prefix, c, eb + (ec + suffix));
    lemma_parse_i64_rt(prefix + ea, c.registered_at, ec + suffix);
    lemma_parse_account_opt_rt((prefix + ea) + eb, c.account, suffix);
}

/// Reading the registry back from where it was written.
#[verifier::rlimit(100)]
proof fn lemma_parse_customers_rt(prefix: Seq<char>, cs: Seq<CustomerView>, suffix: Seq<char>)
    requires
        cs.len() <= u64::MAX,
        forall|i: int| 0 <= i < cs.len() ==> (#[trigger] cs[i]).wf() && customer_bounded(cs[i]),
    ensures
        parse_customers(prefix + enc_customers(cs) + suffix, prefix.len() as int, cs.len())
            == Some((cs, (prefix.len() + enc_customers(cs).len()) as int)),
    decreases cs.len(),
{
    if cs.len() == 0 {
        lemma_split0(prefix, suffix);
        assert(cs =~= Seq::<CustomerView>::empty());
    } else {
        let rest = cs.drop_first();
        lemma_split2(prefix, enc_customer(cs[0]), enc_customers(rest), suffix);
        lemma_parse_customer_rt(prefix, cs[0], enc_customers(rest) + suffix);
        assert(forall|i: int|
            0 <= i < rest.len() ==> (#[trigger] rest[i]).wf() && customer_bounded(rest[i])) by {
            assert(forall|i: int| 0 <= i < rest.len() ==> rest[i] == #[trigger] cs[i + 1]);
        }
        lemma_parse_customers_rt(prefix + enc_customer(cs[0]), rest, suffix);
        assert(seq![cs[0]] + rest =~= cs);
    }
}

/// Reading the ledger's header back from where it was written.
#[verifier::rlimit(100)]
proof fn lemma_parse_bank_header_rt(prefix: Seq<char>, b: BankView, suffix: Seq<char>)
    requires
        bank_bounded(b),
        0 <= b.total_transactions <= u64::MAX,
    ensures
        parse_bank_header(prefix + enc_bank_header(b) + suffix, prefix.len() as int) == Some(
            ((b.name, b.total_transactions), (prefix.len() + enc_bank_header(b).len()) as int),
        ),
{
    let s = prefix + enc_bank_header(b) + suffix;
    let p0 = prefix;
    let r0 = enc_str(b.name) + "total_transactions="@ + enc_u64(b.total_transactions) + suffix;
    assert(s =~= p0 + "name="@ + r0);
    lemma_parse_lit_rt(p0, "name="@, r0);
    let p1 = p0 + "name="@;
    let r1 = "total_transactions="@ + enc_u64(b.total_transactions) + suffix;
    assert(s =~= p1 + enc_str(b.name) + r1);
    lemma_parse_str_rt(p1, b.name, r1);
    let p2 = p1 + enc_str(b.name);
    let r2 = enc_u64(b.total_transactions) + suffix;
    assert(s =~= p2 + "total_transactions="@ + r2);
    lemma_parse_lit_rt(p2, "total_transactions="@, r2);
    let p3 = p2 + "total_transactions="@;
    assert(s =~= p3 + enc_u64(b.total_transactions) + suffix);
    lemma_parse_u64_rt(p3, b.total_transactions, suffix);
}

/// Reading the whole ledger back from where it was written.
#[verifier::rlimit(100)]
proof fn lemma_parse_bank_rt(prefix: Seq<char>, b: BankView, suffix: Seq<char>)
    requires
        b.wf(),
        bank_bounded(b),
    ensures
        parse_bank(prefix + enc_bank(b) + suffix, prefix.len() as int) == Some(
            (b, (prefix.len() + enc_bank(b).len()) as int),
        ),
{
    let eh = enc_bank_header(b);
    let el = "customers="@;
    let en = enc_u64(b.customers.len() as int);
    let ecs = enc_customers(b.customers);
    lemma_split4(prefix, eh, el, en, ecs, suffix);
    lemma_parse_bank_header_rt(prefix, b, el + (en + (ecs + suffix)));
    lemma_parse_lit_rt(prefix + eh, el, en + (ecs + suffix));
    lemma_parse_u64_rt((prefix + eh) + el, b.customers.len() as int, ecs + suffix);
    lemma_parse_customers_rt(((prefix + eh) + el) + en, b.customers, suffix);
}

/// What `decode_bank` accepts: a document that parses completely and
/// yields a well-formed ledger.
pub open spec fn decode_spec(s: Seq<char>) -> Option<BankView> {
    match parse_bank(s, 0) {
        Some((b, j)) => if j == s.len() && b.wf() {
            Some(b)
        } else {
            None
        },
        None => None,
    }
}

/// Law: the save-then-load round trip is the identity. Decoding the
/// encoding of any well-formed, machine-representable ledger yields that
/// ledger, every field intact.
pub proof fn lemma_save_load_round_trip(b: BankView)
    requires
        b.wf(),
        bank_bounded(b),
    ensures
        decode_spec(enc_bank(b)) == Some(b),
{
    let s = enc_bank(b);
    let empty = Seq::<char>::empty();
    assert(s =~= empty + enc_bank(b) + empty);
    lemma_parse_bank_rt(empty, b, empty);
}

/// Appending one record extends the encoding at the end.
proof fn lemma_enc_txs_push(ts: Seq<TransactionView>, t: TransactionView)
    ensures
        enc_txs(ts.push(t)) == enc_txs(ts) + enc_tx(t),
    decreases ts.len(),
{
    if ts.len() == 0 {
        assert(ts.push(t).drop_first() =~= Seq::<TransactionView>::empty());
        assert(ts.push(t)[0] == t);
        assert(enc_txs(ts.push(t)) == enc_tx(t) + enc_txs(Seq::<TransactionView>::empty()));
        assert(enc_tx(t) + Seq::<char>::empty() =~= Seq::<char>::empty() + enc_tx(t));
    } else {
        assert(ts.push(t).drop_first() =~= ts.drop_first().push(t));
        lemma_enc_txs_push(ts.drop_first(), t);
        assert(ts.push(t)[0] == ts[0]);
        assert(enc_txs(ts.push(t)) == enc_tx(ts[0]) + (enc_txs(ts.drop_first()) + enc_tx(t)));
        assert(enc_tx(ts[0]) + (enc_txs(ts.drop_first()) + enc_tx(t)) =~= (enc_tx(ts[0])
            + enc_txs(ts.drop_first())) + enc_tx(t));
    }
}

/// Appending one customer extends the encoding at the end.
proof fn lemma_enc_customers_push(cs: Seq<CustomerView>, c: CustomerView)
    ensures
        enc_customers(cs.push(c)) == enc_customers(cs) + enc_customer(c),
    decreases cs.len(),
{
    if cs.len() == 0 {
        assert(cs.push(c).drop_first() =~= Seq::<CustomerView>::empty());
        assert(cs.push(c)[0] == c);
        assert(enc_customers(cs.push(c)) == enc_customer(c) + enc_customers(
            Seq::<CustomerView>::empty(),
        ));
        assert(enc_customer(c) + Seq::<char>::empty() =~= Seq::<char>::empty() + enc_customer(c));
    } else {
        assert(cs.push(c).drop_first() =~= cs.drop_first().push(c));
        lemma_enc_customers_push(cs.drop_first(), c);
        assert(cs.push(c)[0] == cs[0]);
        assert(enc_customers(cs.push(c)) == enc_customer(cs[0]) + (enc_customers(cs.drop_first())
            + enc_customer(c)));
        assert(enc_customer(cs[0]) + (enc_customers(cs.drop_first()) + enc_customer(c)) =~= (
        enc_customer(cs[0]) + enc_customers(cs.drop_first())) + enc_customer(c));
    }
}

/// Appends one kind marker.
fn emit_kind(out: &mut String, k: &TransactionType)
    ensures
        final(out)@ == old(out)@ + enc_kind(k@),
{
    match k {
        TransactionType::Deposit => {
            out.push('D');
            proof {
                assert(out@ =~= old(out)@ + enc_kind(k@));
            }
        },
        TransactionType::Withdrawal => {
            out.push('W');
            proof {
                assert(out@ =~= old(out)@ + enc_kind(k@));
            }
        },
        TransactionType::Transfer { to_account_id } => {
            out.push('T');
            emit_str(out, to_account_id.as_str());
            proof {
                assert(out@ =~= old(out)@ + enc_kind(k@));
            }
        },
    }
}

/// Appends one transaction record.
fn emit_tx(out: &mut String, t: &Transaction)
    ensures
        final(out)@ == old(out)@ + enc_tx(t@),
{
    emit_str(out, t.id.as_str());
    emit_kind(out, &t.transaction_type);
    emit_i64(out, t.amount);
    emit_i64(out, t.timestamp);
    emit_i64(out, t.balance_after);
    proof {
        assert(out@ =~= old(out)@ + enc_tx(t@));
    }
}

/// Appends a transaction log, first record first.
fn emit_txs(out: &mut String, ts: &Vec<Transaction>)
    ensures
        final(out)@ == old(out)@ + enc_txs(ts@.map_values(|t: Transaction| t@)),
{
    let ghost views = ts@.map_values(|t: Transaction| t@);
    let mut k: usize = 0;
    proof {
        assert(views.subrange(0, 0) =~= Seq::<TransactionView>::empty());
        assert(out@ =~= old(out)@ + enc_txs(views.subrange(0, 0)));
    }
    while k < ts.len()
        invariant
            0 <= k <= ts.len(),
            views == ts@.map_values(|t: Transaction| t@),
            views.len() == ts.len(),
            out@ == old(out)@ + enc_txs(views.subrange(0, k as int)),
        decreases ts.len() - k,
    {
        emit_tx(out, &ts[k]);
        proof {
            assert(views.subrange(0, k + 1) =~= views.subrange(0, k as int).push(
                views[k as int],
            ));
            lemma_enc_txs_push(views.subrange(0, k as int), views[k as int]);
            assert(out@ =~= old(out)@ + enc_txs(views.subrange(0, k + 1)));
        }
        k = k + 1;
    }
    proof {
        assert(views.subrange(0, views.len() as int) =~= views);
    }
}

/// Appends one account.
fn emit_account(out: &mut String, a: &Account)
    ensures
        final(out)@ == old(out)@ + enc_account(a@),
{
    emit_str(out, a.id.as_str());
    emit_i64(out, a.balance);
    emit_i64(out, a.created_at);
    emit_u64(out, a.transactions.len() as u64);
    emit_txs(out, &a.transactions);
    proof {
        assert(out@ =~= old(out)@ + enc_account(a@));
    }
}

/// Appends the presence marker and, when present, the account.
fn emit_account_opt(out: &mut String, acc: &Option<Account>)
    ensures
        final(out)@ == old(out)@ + enc_account_opt(
            match acc {
                Some(a) => Some(a@),
                None => None,
            },
        ),
{
    match acc {
        None => {
            out.push('0');
            proof {
                assert(out@ =~= old(out)@ + enc_account_opt(None));
            }
        },
        Some(a) => {
            out.push('1');
            emit_account(out, a);
            proof {
                assert(out@ =~= old(out)@ + enc_account_opt(Some(a@)));
            }
        },
    }
}

/// Appends one customer.
fn emit_customer(out: &mut String, c: &Customer)
    ensures
        final(out)@ == old(out)@ + enc_customer(c@),
{
    emit_str(out, c.id.as_str());
    emit_str(out, c.name.as_str());
    emit_str(out, c.email.as_str());
    emit_i64(out, c.registered_at);
    emit_account_opt(out, &c.account);
    proof {
        assert(out@ =~= old(out)@ + enc_customer(c@));
    }
}

/// Appends the registry, first registered first.
fn emit_customers(out: &mut String, cs: &Vec<Customer>)
    ensures
        final(out)@ == old(out)@ + enc_customers(cs@.map_values(|c: Customer| c@)),
{
    let ghost views = cs@.map_values(|c: Customer| c@);
    let mut k: usize = 0;
    proof {
        assert(views.subrange(0, 0) =~= Seq::<CustomerView>::empty());
        assert(out@ =~= old(out)@ + enc_customers(views.subrange(0, 0)));
    }
    while k < cs.len()
        invariant
            0 <= k <= cs.len(),
            views == cs@.map_values(|c: Customer| c@),
            views.len() == cs.len(),
            out@ == old(out)@ + enc_customers(views.subrange(0, k as int)),
        decreases cs.len() - k,
    {
        emit_customer(out, &cs[k]);
        proof {
            assert(views.subrange(0, k + 1) =~= views.subrange(0, k as int).push(
                views[k as int],
            ));
            lemma_enc_customers_push(views.subrange(0, k as int), views[k as int]);
            assert(out@ =~= old(out)@ + enc_customers(views.subrange(0, k + 1)));
        }
        k = k + 1;
    }
    proof {
        assert(views.subrange(0, views.len() as int) =~= views);
    }
}

/// Serializes the whole ledger to the durable store's text form.
pub fn encode_bank(bank: &Bank) -> (r: String)
    ensures
        r@ == enc_bank(bank@),
{
    let mut out = String::new();
    out.append("name=");
    emit_str(&mut out, bank.name.as_str());
    out.append("total_transactions=");
    emit_u64(&mut out, bank.total_transactions);
    out.append("customers=");
    emit_u64(&mut out, bank.customers.len() as u64);
    emit_customers(&mut out, &bank.customers);
    proof {
        assert(out@ =~= enc_bank(bank@));
    }
    out
}

/// Reads one kind marker.
fn p_kind(s: &str, i: usize) -> (r: Option<(TransactionType, usize)>)
    ensures
        (match r {
            Some((k, j)) => parse_kind(s@, i as int) == Some((k@, j as int)),
            None => parse_kind(s@, i as int) is None,
        }),
{
    if i >= s.unicode_len() {
        return None;
    }
    let c = s.get_char(i);
    if c == 'D' {
        Some((TransactionType::Deposit, i + 1))
    } else if c == 'W' {
        Some((TransactionType::Withdrawal, i + 1))
    } else if c == 'T' {
        match p_str(s, i + 1) {
            Some((t, j)) => Some((TransactionType::Transfer { to_account_id: t }, j)),
            None => None,
        }
    } else {
        None
    }
}

/// Reads one transaction record.
fn p_tx(s: &str, i: usize) -> (r: Option<(Transaction, usize)>)
    ensures
        (match r {
            Some((t, j)) => parse_tx(s@, i as int) == Some((t@, j as int)),
            None => parse_tx(s@, i as int) is None,
        }),
{
    let (id, i1) = match p_str(s, i) {
        Some(v) => v,
        None => {
            return None;
        },
    };
    let (kind, i2) = match p_kind(s, i1) {
        Some(v) => v,
        None => {
            return None;
        },
    };
    let (amount, i3) = match p_i64(s, i2) {
        Some(v) => v,
        None => {
            return None;
        },
    };
    let (timestamp, i4) = match p_i64(s, i3) {
        Some(v) => v,
        None => {
            return None;
        },
    };
    let (balance_after, i5) = match p_i64(s, i4) {
        Some(v) => v,
        None => {
            return None;
        },
    };
    Some((Transaction { id, transaction_type: kind, amount, timestamp, balance_after }, i5))
}

/// Reads `n` transaction records in sequence.
fn p_txs(s: &str, i: usize, n: u64) -> (r: Option<(Vec<Transaction>, usize)>)
    ensures
        (match r {
            Some((v, j)) => parse_txs(s@, i as int, n as nat) == Some(
                (v@.map_values(|t: Transaction| t@), j as int),
            ),
            None => parse_txs(s@, i as int, n as nat) is None,
        }),
{
    let mut acc: Vec<Transaction> = Vec::new();
    let mut cur: usize = i;
    let mut k: u64 = 0;
    proof {
        assert(acc@.map_values(|t: Transaction| t@) =~= Seq::<TransactionView>::empty());
    }
    while k < n
        invariant
            0 <= k <= n,
            (match parse_txs(s@, cur as int, (n - k) as nat) {
                Some((rest, end)) => parse_txs(s@, i as int, n as nat) == Some(
                    (acc@.map_values(|t: Transaction| t@) + rest, end),
                ),
                None => parse_txs(s@, i as int, n as nat) is None,
            }),
        decreases n - k,
    {
        let ghost pre_acc = acc@.map_values(|t: Transaction| t@);
        match p_tx(s, cur) {
            Some((t, j)) => {
                let ghost tv = t@;
                acc.push(t);
                proof {
                    assert(acc@.map_values(|tt: Transaction| tt@) =~= pre_acc.push(tv));
                    match parse_txs(s@, j as int, (n - k - 1) as nat) {
                        Some((rest2, end2)) => {
                            assert(parse_txs(s@, cur as int, (n - k) as nat) == Some(
                                (seq![tv] + rest2, end2),
                            ));
                            assert(pre_acc + (seq![tv] + rest2) =~= pre_acc.push(tv) + rest2);
                        },
                        None => {},
                    }
                }
                cur = j;
                k = k + 1;
            },
            None => {
                return None;
            },
        }
    }
    proof {
        assert(parse_txs(s@, cur as int, 0) == Some(
            (Seq::<TransactionView>::empty(), cur as int),
        ));
        assert(acc@.map_values(|t: Transaction| t@) + Seq::<TransactionView>::empty()
            =~= acc@.map_values(|t: Transaction| t@));
    }
    Some((acc, cur))
}

/// Reads one account.
fn p_account(s: &str, i: usize) -> (r: Option<(Account, usize)>)
    ensures
        (match r {
            Some((a, j)) => parse_account(s@, i as int) == Some((a@, j as int)),
            None => parse_account(s@, i as int) is None,
        }),
{
    let (id, i1) = match p_str(s, i) {
        Some(v) => v,
        None => {
            return None;
        },
    };
    let (balance, i2) = match p_i64(s, i1) {
        Some(v) => v,
        None => {
            return None;
        },
    };
    let (created_at, i3) = match p_i64(s, i2) {
        Some(v) => v,
        None => {
            return None;
        },
    };
    let (n, i4) = match p_u64(s, i3) {
        Some(v) => v,
        None => {
            return None;
        },
    };
    let (transactions, i5) = match p_txs(s, i4, n) {
        Some(v) => v,
        None => {
            return None;
        },
    };
    Some((Account { id, balance, transactions, created_at }, i5))
}

/// Reads the presence marker and, when present, the account.
fn p_account_opt(s: &str, i: usize) -> (r: Option<(Option<Account>, usize)>)
    ensures
        (match r {
            Some((acc, j)) => parse_account_opt(s@, i as int) == Some(
                (
                    match acc {
                        Some(a) => Some(a@),
                        None => None,
                    },
                    j as int,
                ),
            ),
            None => parse_account_opt(s@, i as int) is None,
        }),
{
    if i >= s.unicode_len() {
        return None;
    }
    let c = s.get_char(i);
    if c == '0' {
        Some((None, i + 1))
    } else if c == '1' {
        match p_account(s, i + 1) {
            Some((a, j)) => Some((Some(a), j)),
            None => None,
        }
    } else {
        None
    }
}

/// Reads one customer.
fn p_customer(s: &str, i: usize) -> (r: Option<(Customer, usize)>)
    ensures
        (match r {
            Some((c, j)) => parse_customer(s@, i as int) == Some((c@, j as int)),
            None => parse_customer(s@, i as int) is None,
        }),
{
    let (id, i1) = match p_str(s, i) {
        Some(v) => v,
        None => {
            return None;
        },
    };
    let (name, i2) = match p_str(s, i1) {
        Some(v) => v,
        None => {
            return None;
        },
    };
    let (email, i3) = match p_str(s, i2) {
        Some(v) => v,
        None => {
            return None;
        },
    };
    let (registered_at, i4) = match p_i64(s, i3) {
        Some(v) => v,
        None => {
            return None;
        },
    };
    let (account, i5) = match p_account_opt(s, i4) {
        Some(v) => v,
        None => {
            return None;
        },
    };
    Some((Customer { id, name, email, account, registered_at }, i5))
}

/// Reads `n` customers in sequence.
fn p_customers(s: &str, i: usize, n: u64) -> (r: Option<(Vec<Customer>, usize)>)
    ensures
        (match r {
            Some((v, j)) => parse_customers(s@, i as int, n as nat) == Some(
                (v@.map_values(|c: Customer| c@), j as int),
            ),
            None => parse_customers(s@, i as int, n as nat) is None,
        }),
{
    let mut acc: Vec<Customer> = Vec::new();
    let mut cur: usize = i;
    let mut k: u64 = 0;
    proof {
        assert(acc@.map_values(|c: Customer| c@) =~= Seq::<CustomerView>::empty());
    }
    while k < n
        invariant
            0 <= k <= n,
            (match parse_customers(s@, cur as int, (n - k) as nat) {
                Some((rest, end)) => parse_customers(s@, i as int, n as nat) == Some(
                    (acc@.map_values(|c: Customer| c@) + rest, end),
                ),
                None => parse_customers(s@, i as int, n as nat) is None,
            }),
        decreases n - k,
    {
        let ghost pre_acc = acc@.map_values(|c: Customer| c@);
        match p_customer(s, cur) {
            Some((c, j)) => {
                let ghost cv = c@;
                acc.push(c);
                proof {
                    assert(acc@.map_values(|cc: Customer| cc@) =~= pre_acc.push(cv));
                    match parse_customers(s@, j as int, (n - k - 1) as nat) {
                        Some((rest2, end2)) => {
                            assert(parse_customers(s@, cur as int, (n - k) as nat) == Some(
                                (seq![cv] + rest2, end2),
                            ));
                            assert(pre_acc + (seq![cv] + rest2) =~= pre_acc.push(cv) + rest2);
                        },
                        None => {},
                    }
                }
                cur = j;
                k = k + 1;
            },
            None => {
                return None;
            },
        }
    }
    proof {
        assert(parse_customers(s@, cur as int, 0) == Some(
            (Seq::<CustomerView>::empty(), cur as int),
        ));
        assert(acc@.map_values(|c: Customer| c@) + Seq::<CustomerView>::empty()
            =~= acc@.map_values(|c: Customer| c@));
    }
    Some((acc, cur))
}

/// Reads the whole ledger.
fn p_bank(s: &str, i: usize) -> (r: Option<(Bank, usize)>)
    ensures
        (match r {
            Some((b, j)) => parse_bank(s@, i as int) == Some((b@, j as int)),
            None => parse_bank(s@, i as int) is None,
        }),
{
    let i1 = match p_lit(s, i, "name=") {
        Some(v) => v,
        None => {
            return None;
        },
    };
    let (name, i2) = match p_str(s, i1) {
        Some(v) => v,
        None => {
            return None;
        },
    };
    let i3 = match p_lit(s, i2, "total_transactions=") {
        Some(v) => v,
        None => {
            return None;
        },
    };
    let (total_transactions, i4) = match p_u64(s, i3) {
        Some(v) => v,
        None => {
            return None;
        },
    };
    let i5 = match p_lit(s, i4, "customers=") {
        Some(v) => v,
        None => {
            return None;
        },
    };
    let (n, i6) = match p_u64(s, i5) {
        Some(v) => v,
        None => {
            return None;
        },
    };
    let (customers, i7) = match p_customers(s, i6, n) {
        Some(v) => v,
        None => {
            return None;
        },
    };
    Some((Bank { name, customers, total_transactions }, i7))
}

/// Checks the account invariant on a decoded value.
fn check_account_wf(a: &Account) -> (r: bool)
    ensures
        r == a@.wf(),
{
    if a.balance < 0 {
        return false;
    }
    let ghost txs = a@.transactions;
    let mut k: usize = 0;
    while k < a.transactions.len()
        invariant
            0 <= k <= a.transactions.len(),
            txs == a@.transactions,
            txs.len() == a.transactions.len(),
            forall|j: int| 0 <= j < k ==> transaction_wf(#[trigger] txs[j]),
        decreases a.transactions.len() - k,
    {
        let t = &a.transactions[k];
        if t.amount <= 0 || t.balance_after < 0 {
            proof {
                assert(!transaction_wf(txs[k as int]));
            }
            return false;
        }
        k = k + 1;
    }
    let n = a.transactions.len();
    if n > 0 && a.transactions[n - 1].balance_after != a.balance {
        return false;
    }
    true
}

/// Checks the customer invariant on a decoded value.
fn check_customer_wf(c: &Customer) -> (r: bool)
    ensures
        r == c@.wf(),
{
    match &c.account {
        Some(a) => check_account_wf(a),
        None => true,
    }
}

/// Checks the whole-ledger invariant on a decoded value.
fn check_bank_wf(b: &Bank) -> (r: bool)
    ensures
        r == b@.wf(),
{
    let ghost cs = b@.customers;
    let mut k: usize = 0;
    while k < b.customers.len()
        invariant
            0 <= k <= b.customers.len(),
            cs == b@.customers,
            cs.len() == b.customers.len(),
            forall|j: int| 0 <= j < k ==> (#[trigger] cs[j]).wf(),
        decreases b.customers.len() - k,
    {
        if !check_customer_wf(&b.customers[k]) {
            proof {
                assert(!cs[k as int].wf());
            }
            return false;
        }
        k = k + 1;
    }
    let mut p: usize = 0;
    while p < b.customers.len()
        invariant
            0 <= p <= b.customers.len(),
            cs == b@.customers,
            cs.len() == b.customers.len(),
            forall|x: int, y: int| 0 <= x < y < cs.len() && x < p ==> (#[trigger] cs[x]).id != (
            #[trigger] cs[y]).id,
        decreases b.customers.len() - p,
    {
        let mut q: usize = p + 1;
        while q < b.customers.len()
            invariant
                0 <= p < q <= b.customers.len(),
                cs == b@.customers,
                cs.len() == b.customers.len(),
                forall|y: int| p < y < q ==> cs[p as int].id != (#[trigger] cs[y]).id,
            decreases b.customers.len() - q,
        {
            if crate::external::str_equal(b.customers[p].id.as_str(), b.customers[q].id.as_str())
            {
                proof {
                    assert(cs[p as int].id == cs[q as int].id);
                    assert(!ids_distinct(cs));
                }
                return false;
            }
            q = q + 1;
        }
        p = p + 1;
    }
    true
}

/// Deserializes a ledger from the durable store's text form. Succeeds
/// exactly when the document parses completely and the decoded ledger
/// satisfies the ledger invariant; everything else is a decoding error.
pub fn decode_bank(s: &str) -> (r: BankResult<Bank>)
    ensures
        r is Ok <==> decode_spec(s@) is Some,
        (match r {
            Ok(b) => decode_spec(s@) == Some(b@) && b@.wf(),
            Err(e) => e@ is SerializationError,
        }),
{
    match p_bank(s, 0) {
        Some((b, j)) => {
            if j != s.unicode_len() {
                return Err(
                    BankError::SerializationError(
                        String::from_str("the stored ledger has trailing content"),
                    ),
                );
            }
            if !check_bank_wf(&b) {
                return Err(
                    BankError::SerializationError(
                        String::from_str("the stored ledger is not well formed"),
                    ),
                );
            }
            Ok(b)
        },
        None => Err(
            BankError::SerializationError(
                String::from_str("the stored ledger could not be parsed"),
            ),
        ),
    }
}

} // verus!
