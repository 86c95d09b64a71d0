use vstd::prelude::*;

use core::cmp::Ordering;
use vstd::std_specs::cmp::PartialOrdSpecImpl;

use crate::text::{decimal_digits, decimal_string, zero_padded, zero_padded_string};

verus! {

/// A price held exactly as an integer number of paisa (1 rupee = 100 paisa).
#[derive(Debug, Clone, Copy, PartialEq, Eq, Structural, Ord, Hash)]
pub struct Price {
    pub paisa: u64,
}

/// How two prices compare: by their number of paisa.
pub open spec fn price_order(a: Price, b: Price) -> Option<Ordering> {
    if a.paisa < b.paisa {
        Some(Ordering::Less)
    } else if a.paisa == b.paisa {
        Some(Ordering::Equal)
    } else {
        Some(Ordering::Greater)
    }
}

impl PartialOrd for Price {
    fn partial_cmp(&self, other: &Self) -> (r: Option<Ordering>) {
        if self.paisa < other.paisa {
            Some(Ordering::Less)
        } else if self.paisa == other.paisa {
            Some(Ordering::Equal)
        } else {
            Some(Ordering::Greater)
        }
    }
}

impl PartialOrdSpecImpl for Price {
    open spec fn obeys_partial_cmp_spec() -> bool {
        true
    }

    open spec fn partial_cmp_spec(&self, other: &Self) -> Option<Ordering> {
        price_order(*self, *other)
    }
}

/// An amount of `paisa` paisa written in rupees: the rupee sign, the whole
/// rupees, a point and two digits of paisa.
pub open spec fn money_text(paisa: nat) -> Seq<char> {
    "₹"@ + decimal_digits(paisa / 100) + "."@ + zero_padded(paisa % 100, 2)
}

/// The amount `paisa` written in rupees (see `money_text`).
pub fn money_string(paisa: u64) -> (s: String)
    ensures
        s@ == money_text(paisa as nat),
{
    let mut s = String::from_str("₹");
    let rupees = decimal_string(paisa / 100);
    s.append(rupees.as_str());
    s.append(".");
    let cents = zero_padded_string(paisa % 100, 2);
    s.append(cents.as_str());
    s
}

impl Price {
    /// The price written in rupees, such as `₹150.25`.
    pub fn display(&self) -> (s: String)
        ensures
            s@ == money_text(self.paisa as nat),
    {
        money_string(self.paisa)
    }

    /// The price of `paisa` paisa.
    pub fn from_paisa(paisa: u64) -> (p: Self)
        ensures
            p.paisa == paisa,
    {
        Self { paisa }
    }

    /// The price of `rupees` rupees and `paisa` paisa, that is `rupees * 100 + paisa` paisa.
    pub fn from_rupees_paisa(rupees: u64, paisa: u64) -> (p: Self)
        requires
            rupees * 100 + paisa <= u64::MAX,
        ensures
            p.paisa == rupees * 100 + paisa,
    {
        Self { paisa: (rupees * 100) + paisa }
    }
}

} // verus!
