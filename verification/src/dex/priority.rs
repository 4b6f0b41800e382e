//! The order of priority among orders of one kind, as `partial_cmp`.

use crate::dex::types::{Order, OrderKind};
use core::cmp::Ordering;
use vstd::prelude::*;
use vstd::std_specs::cmp::PartialOrdSpecImpl;

verus! {

impl PartialOrd for Order {
    /// Compares two orders of one kind by priority: the better price is the
    /// greater (the higher for buys, the lower for sells), and of two orders
    /// of one price the one of the earlier block. Orders of different kinds
    /// do not compare.
    fn partial_cmp(&self, other: &Order) -> (r: Option<Ordering>) {
        match (self.kind, other.kind) {
            (OrderKind::Sell, OrderKind::Sell) => {
                if self.price > other.price {
                    Some(Ordering::Less)
                } else if self.price < other.price {
                    Some(Ordering::Greater)
                } else if self.height > other.height {
                    Some(Ordering::Less)
                } else if self.height < other.height {
                    Some(Ordering::Greater)
                } else {
                    Some(Ordering::Equal)
                }
            },
            (OrderKind::Buy, OrderKind::Buy) => {
                if self.price > other.price {
                    Some(Ordering::Greater)
                } else if self.price < other.price {
                    Some(Ordering::Less)
                } else if self.height > other.height {
                    Some(Ordering::Less)
                } else if self.height < other.height {
                    Some(Ordering::Greater)
                } else {
                    Some(Ordering::Equal)
                }
            },
            _ => None,
        }
    }
}

impl PartialOrdSpecImpl for Order {
    open spec fn obeys_partial_cmp_spec() -> bool {
        true
    }

    open spec fn partial_cmp_spec(&self, other: &Order) -> Option<Ordering> {
        if self.kind != other.kind {
            None
        } else if self@.ranks_below(other@) {
            Some(Ordering::Less)
        } else if other@.ranks_below(self@) {
            Some(Ordering::Greater)
        } else {
            Some(Ordering::Equal)
        }
    }
}

} // verus!
