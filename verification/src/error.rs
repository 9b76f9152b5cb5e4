//! The application's failure taxonomy: business-logic failures carrying a
//! message, and transport failures carrying the transport's error text.

use vstd::prelude::*;

verus! {

/// A failure surfaced to the operator.
#[derive(Debug)]
pub enum AppError {
    /// A business-logic failure, described in plain text.
    BL { msg: String },
    /// A failure reported by the USB transport, reduced to its text.
    Libusb { msg: String },
}

/// Wrap a business-logic failure message.
pub fn bl_err(s: &str) -> (e: AppError)
    ensures
        e matches AppError::BL { msg } && msg@ == s@,
{
    AppError::BL { msg: s.to_owned() }
}

impl AppError {
    /// The failure's message text.
    pub fn message(&self) -> (r: &str)
        ensures
            (match *self {
                AppError::BL { msg } => r@ == msg@,
                AppError::Libusb { msg } => r@ == msg@,
            }),
    {
        match self {
            AppError::BL { msg } => msg.as_str(),
            AppError::Libusb { msg } => msg.as_str(),
        }
    }
}

} // verus!
