//! Human-readable summaries, offered by unrelated entity types through
//! one narrow trait.

use vstd::prelude::*;
use crate::bank::Bank;
use crate::codec::{digit_char, enc_digits};
use crate::customer::Customer;

verus! {

/// The decimal digits of a non-negative number, without leading zeros.
pub open spec fn dec_repr(n: int) -> Seq<char>
    decreases n,
{
    if n < 10 {
        seq![digit_char(if n < 0 { 0 } else { n })]
    } else {
        dec_repr(n / 10).push(digit_char(n % 10))
    }
}

/// Appends the decimal digits of `n`.
fn emit_dec(out: &mut String, n: u128)
    ensures
        final(out)@ == old(out)@ + dec_repr(n as int),
    decreases n,
{
    if n < 10 {
        let c: char = match n as u8 {
            0 => '0',
            1 => '1',
            2 => '2',
            3 => '3',
            4 => '4',
            5 => '5',
            6 => '6',
            7 => '7',
            8 => '8',
            _ => '9',
        };
        out.push(c);
        proof {
            assert(out@ =~= old(out)@ + dec_repr(n as int));
        }
    } else {
        emit_dec(out, n / 10);
        let c: char = match (n % 10) as u8 {
            0 => '0',
            1 => '1',
            2 => '2',
            3 => '3',
            4 => '4',
            5 => '5',
            6 => '6',
            7 => '7',
            8 => '8',
            _ => '9',
        };
        out.push(c);
        proof {
            assert(out@ =~= old(out)@ + dec_repr(n as int));
        }
    }
}

/// An amount of cents as dollars and cents, e.g. `100.00`.
pub open spec fn cents_repr(v: int) -> Seq<char> {
    if v >= 0 {
        dec_repr(v / 100) + seq!['.'] + enc_digits(v % 100, 2)
    } else {
        seq!['-'] + dec_repr((-v) / 100) + seq!['.'] + enc_digits((-v) % 100, 2)
    }
}

/// Appends an amount of cents as dollars and cents.
fn emit_cents(out: &mut String, v: i128)
    ensures
        final(out)@ == old(out)@ + cents_repr(v as int),
{
    let m: u128 = if v < 0 {
        if v == i128::MIN {
            170141183460469231731687303715884105728u128
        } else {
            (-v) as u128
        }
    } else {
        v as u128
    };
    if v < 0 {
        out.push('-');
    }
    emit_dec(out, m / 100);
    out.push('.');
    let r = (m % 100) as u64;
    crate::codec::emit_digits(out, r, 2);
    proof {
        assert(out@ =~= old(out)@ + cents_repr(v as int));
    }
}

/// Something that can describe itself in one line of text.
pub trait Summarizable {
    /// A human-readable one-line summary.
    fn summary(&self) -> String;
}

impl Summarizable for Customer {
    /// The customer's name, a short form of its id, and the state of its
    /// account.
    fn summary(&self) -> String {
        let mut out = String::new();
        out.append("Customer: ");
        out.append(self.name.as_str());
        out.append(" (");
        let id_len = self.id.unicode_len();
        let cut = if id_len < 8 {
            id_len
        } else {
            8
        };
        out.append(self.id.as_str().substring_char(0, cut));
        out.append("), ");
        match &self.account {
            Some(acc) => {
                out.append("Account: ");
                let aid_len = acc.id.unicode_len();
                let acut = if aid_len < 8 {
                    aid_len
                } else {
                    8
                };
                out.append(acc.id.as_str().substring_char(0, acut));
                out.append(", Balance: $");
                emit_cents(&mut out, acc.balance as i128);
            },
            None => {
                out.append("No account");
            },
        }
        out
    }
}

impl Summarizable for Bank {
    /// The bank's name, how many customers it has, the total balance, and
    /// the transaction counter.
    fn summary(&self) -> String {
        let mut out = String::new();
        out.append("Bank: ");
        out.append(self.name.as_str());
        out.append(", Customers: ");
        emit_dec(&mut out, self.customers.len() as u128);
        out.append(", Total Balance: $");
        let mut total: i128 = 0;
        let mut k: usize = 0;
        while k < self.customers.len()
            invariant
                0 <= k <= self.customers.len(),
            decreases self.customers.len() - k,
        {
            match &self.customers[k].account {
                Some(a) => {
                    if a.balance >= 0 && total <= i128::MAX - a.balance as i128 {
                        total = total + a.balance as i128;
                    }
                },
                None => {},
            }
            k = k + 1;
        }
        emit_cents(&mut out, total);
        out.append(", Transactions: ");
        emit_dec(&mut out, self.total_transactions as u128);
        out
    }
}

} // verus!
