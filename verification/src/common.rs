//! The energy credit that travels from the router to a device.

use vstd::prelude::*;

verus! {

/// An energy credit: what one transaction still owes to one device.
#[derive(Debug, PartialEq, Eq)]
pub struct Payment {
    /// The payment address the transaction was sent to.
    pub address: String,
    /// The transaction the credit comes from.
    pub txid: String,
    /// The energy owed, in hundredths of a watt-hour.
    pub watt_hours: i64,
}

/// The mathematical value of a [`Payment`].
pub ghost struct PaymentView {
    pub address: Seq<char>,
    pub txid: Seq<char>,
    pub watt_hours: int,
}

impl View for Payment {
    type V = PaymentView;

    open spec fn view(&self) -> PaymentView {
        PaymentView {
            address: self.address@,
            txid: self.txid@,
            watt_hours: self.watt_hours as int,
        }
    }
}

/// The values of a list of credits.
pub open spec fn payment_views(credits: Seq<Payment>) -> Seq<PaymentView> {
    credits.map_values(|p: Payment| p@)
}

impl Payment {
    /// Whether energy is still owed: a credit of zero or less is a
    /// delivery that has been completed.
    pub open spec fn spec_is_outstanding(&self) -> bool {
        self.watt_hours > 0
    }

    /// Whether energy is still owed.
    #[verifier::when_used_as_spec(spec_is_outstanding)]
    pub fn is_outstanding(&self) -> (r: bool)
        ensures
            r == (self.watt_hours > 0),
    {
        self.watt_hours > 0
    }
}

impl Clone for Payment {
    fn clone(&self) -> (r: Payment)
        ensures
            r@ == self@,
    {
        Payment {
            address: self.address.clone(),
            txid: self.txid.clone(),
            watt_hours: self.watt_hours,
        }
    }
}

} // verus!
