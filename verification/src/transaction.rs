//! A transaction as it is read from a message.

use vstd::prelude::*;
use crate::category::Category;
use crate::text::is_separator;

verus! {

/// A transaction that is about to be recorded. The amount counts minor
/// units of the currency; the day and time of the entry are given by
/// whoever records it.
#[derive(Debug, PartialEq, Eq)]
pub struct NewTransaction {
    pub amount: i64,
    pub category: Category,
    pub note: Option<String>,
    pub shop_name: Option<String>,
}

/// The mathematical value of a `NewTransaction`.
pub ghost struct TransactionView {
    pub amount: i64,
    pub category: Category,
    pub note: Option<Seq<char>>,
    pub shop_name: Option<Seq<char>>,
}

/// The characters of an optional text.
pub open spec fn text_of(t: Option<String>) -> Option<Seq<char>> {
    match t {
        Some(s) => Some(s@),
        None => None,
    }
}

impl View for NewTransaction {
    type V = TransactionView;

    open spec fn view(&self) -> TransactionView {
        TransactionView {
            amount: self.amount,
            category: self.category,
            note: text_of(self.note),
            shop_name: text_of(self.shop_name),
        }
    }
}

/// A text of words with exactly one space between each two of them: it is
/// not empty, neither begins nor ends with a separator, and each separator
/// in it is a space that a character other than a separator follows.
pub open spec fn is_normalized(s: Seq<char>) -> bool {
    &&& s.len() > 0
    &&& !is_separator(s[0])
    &&& !is_separator(s.last())
    &&& forall|i: int|
        0 <= i < s.len() - 1 && is_separator(#[trigger] s[i]) ==> s[i] == ' ' && !is_separator(
            s[i + 1],
        )
}

/// Tells whether the shop's name and the note of `t` are normalized, each
/// where there is one.
pub open spec fn fields_normalized(t: TransactionView) -> bool {
    &&& t.shop_name matches Some(s) ==> is_normalized(s)
    &&& t.note matches Some(s) ==> is_normalized(s)
}

/// Tells whether two optional texts hold the same characters.
fn same_text(a: &Option<String>, b: &Option<String>) -> (r: bool)
    ensures
        r == (text_of(*a) == text_of(*b)),
{
    match (a, b) {
        (Some(x), Some(y)) => *x == *y,
        (None, None) => true,
        _ => false,
    }
}

impl NewTransaction {
    /// The shop's name and the note, where there is one, are normalized.
    pub open spec fn well_formed(&self) -> bool {
        fields_normalized(self@)
    }

    /// Tells whether `self` and `other` record the same purchase: their
    /// fields agree, and they were entered less than two seconds apart.
    /// `seconds_apart` is the time from one entry to the other, in whole
    /// seconds and in either direction.
    pub fn same_entry(&self, other: &NewTransaction, seconds_apart: i64) -> (r: bool)
        ensures
            r == (-2 < seconds_apart < 2 && self@ == other@),
    {
        let same_date = -2 < seconds_apart && seconds_apart < 2;
        same_date && self.category == other.category && self.amount == other.amount
            && same_text(&self.note, &other.note) && same_text(&self.shop_name, &other.shop_name)
    }
}

} // verus!
