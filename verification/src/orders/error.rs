//! Errors from decoding an order stream.

use crate::text::{decimal, hex_padded, push_decimal, push_hex, push_text};
use vstd::prelude::*;

verus! {

/// Errors from decoding/rendering an order stream. Decode errors are generally
/// recoverable: the caller logs and continues with the next update.
#[derive(Debug)]
pub enum OrderError {
    /// Unexpected end of the order stream.
    UnexpectedEof { needed: usize, have: usize },
    /// Unsupported primary order type.
    UnsupportedOrderType(u8),
    /// Unsupported secondary order type.
    UnsupportedSecondaryOrder(u8),
    /// An order arrived before any order type was set; carries the control byte.
    NoOrderType(u8),
    /// Malformed order.
    Malformed(&'static str),
}

/// What an error says.
pub open spec fn describe(e: OrderError) -> Seq<char> {
    match e {
        OrderError::UnexpectedEof { needed, have } =>
            "unexpected end of order stream: needed "@ + decimal(needed as nat) + " bytes, had "@
                + decimal(have as nat),
        OrderError::UnsupportedOrderType(t) => "unsupported order type 0x"@ + hex_padded(
            t as nat,
            1,
        ),
        OrderError::UnsupportedSecondaryOrder(t) => "unsupported secondary order type 0x"@
            + hex_padded(t as nat, 1),
        OrderError::NoOrderType(t) => "order type 0x"@ + hex_padded(t as nat, 1)
            + " arrived before any TS_TYPE_CHANGE set it"@,
        OrderError::Malformed(why) => "malformed order: "@ + why@,
    }
}

impl OrderError {
    /// The error as a line of text.
    pub fn message(&self) -> (r: String)
        ensures
            r@ == describe(*self),
    {
        match self {
            OrderError::UnexpectedEof { needed, have } => {
                let mut s = String::from_str("unexpected end of order stream: needed ");
                push_decimal(&mut s, *needed as u64);
                push_text(&mut s, " bytes, had ");
                push_decimal(&mut s, *have as u64);
                s
            },
            OrderError::UnsupportedOrderType(t) => {
                let mut s = String::from_str("unsupported order type 0x");
                push_hex(&mut s, *t as u64, 1);
                s
            },
            OrderError::UnsupportedSecondaryOrder(t) => {
                let mut s = String::from_str("unsupported secondary order type 0x");
                push_hex(&mut s, *t as u64, 1);
                s
            },
            OrderError::NoOrderType(t) => {
                let mut s = String::from_str("order type 0x");
                push_hex(&mut s, *t as u64, 1);
                push_text(&mut s, " arrived before any TS_TYPE_CHANGE set it");
                s
            },
            OrderError::Malformed(why) => {
                let mut s = String::from_str("malformed order: ");
                push_text(&mut s, why);
                s
            },
        }
    }
}

} // verus!
