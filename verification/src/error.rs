//! The errors the library reports.
use vstd::prelude::*;

use crate::text::IntErrorKind;

verus! {

/// Why an operation on the configuration was refused.
#[derive(Debug)]
pub enum NrpError {
    /// No proxy is configured for this listen domain.
    ProxyNotFound(String),
    /// The value given for the listen port is not a port number.
    BadListenPort(String, IntErrorKind),
    /// The value given for the destination port is not a port number.
    BadDestPort(String, IntErrorKind),
    /// The value given for a boolean setting is neither `true` nor `false`.
    BadBool(String),
    /// The text names no SSL selection.
    UnknownSslSelection,
}

/// The mathematical value of an [`NrpError`].
pub enum ErrorView {
    ProxyNotFound(Seq<char>),
    BadListenPort(Seq<char>, IntErrorKind),
    BadDestPort(Seq<char>, IntErrorKind),
    BadBool(Seq<char>),
    UnknownSslSelection,
}

impl View for NrpError {
    type V = ErrorView;

    open spec fn view(&self) -> ErrorView {
        match self {
            NrpError::ProxyNotFound(d) => ErrorView::ProxyNotFound(d@),
            NrpError::BadListenPort(v, k) => ErrorView::BadListenPort(v@, *k),
            NrpError::BadDestPort(v, k) => ErrorView::BadDestPort(v@, *k),
            NrpError::BadBool(v) => ErrorView::BadBool(v@),
            NrpError::UnknownSslSelection => ErrorView::UnknownSslSelection,
        }
    }
}

/// What the standard library says of a failed integer parse.
pub open spec fn int_error_text(k: IntErrorKind) -> Seq<char> {
    match k {
        IntErrorKind::Empty => "cannot parse integer from empty string"@,
        IntErrorKind::InvalidDigit => "invalid digit found in string"@,
        IntErrorKind::PosOverflow => "number too large to fit in target type"@,
    }
}

/// The messages of an error, outermost first: a refused parse gives the context in which
/// the value was read, then the standard library's own error as its cause. As with a context
/// given as a plain string, the context holds the text `{value}` literally.
pub open spec fn error_chain(e: ErrorView) -> Seq<Seq<char>> {
    match e {
        ErrorView::ProxyNotFound(d) => seq!["Failed to find proxy for the given domain: "@ + d],
        ErrorView::BadListenPort(_, k) => seq![
            "Failed to parse value as listen port: {value}"@,
            int_error_text(k),
        ],
        ErrorView::BadDestPort(_, k) => seq![
            "Failed to parse value as destination port: {value}"@,
            int_error_text(k),
        ],
        ErrorView::BadBool(_) => seq![
            "Failed to parse value as boolean: {value}"@,
            "provided string was not `true` or `false`"@,
        ],
        ErrorView::UnknownSslSelection => seq![
            "Matching variant not found; expected one of: [false, no-redirect, redirect]"@,
        ],
    }
}

/// The characters of each message of a chain.
pub open spec fn chain_view(v: Seq<String>) -> Seq<Seq<char>> {
    v.map_values(|s: String| s@)
}

fn int_error_string(k: IntErrorKind) -> (r: String)
    ensures
        r@ == int_error_text(k),
{
    match k {
        IntErrorKind::Empty => String::from_str("cannot parse integer from empty string"),
        IntErrorKind::InvalidDigit => String::from_str("invalid digit found in string"),
        IntErrorKind::PosOverflow => String::from_str("number too large to fit in target type"),
    }
}

impl NrpError {
    /// The error's outermost message, as `Display` shows an error.
    pub fn message(&self) -> (r: String)
        ensures
            r@ == error_chain(self@)[0],
    {
        match self {
            NrpError::ProxyNotFound(d) => {
                let mut s = String::from_str("Failed to find proxy for the given domain: ");
                s.append(d.as_str());
                s
            },
            NrpError::BadListenPort(_, _) => String::from_str(
                "Failed to parse value as listen port: {value}",
            ),
            NrpError::BadDestPort(_, _) => String::from_str(
                "Failed to parse value as destination port: {value}",
            ),
            NrpError::BadBool(_) => String::from_str("Failed to parse value as boolean: {value}"),
            NrpError::UnknownSslSelection => String::from_str(
                "Matching variant not found; expected one of: [false, no-redirect, redirect]",
            ),
        }
    }

    /// All messages of the error, outermost first.
    pub fn chain(&self) -> (r: Vec<String>)
        ensures
            chain_view(r@) == error_chain(self@),
    {
        let mut v: Vec<String> = Vec::new();
        v.push(self.message());
        match self {
            NrpError::BadListenPort(_, k) => v.push(int_error_string(*k)),
            NrpError::BadDestPort(_, k) => v.push(int_error_string(*k)),
            NrpError::BadBool(_) => v.push(
                String::from_str("provided string was not `true` or `false`"),
            ),
            _ => {},
        }
        assert(chain_view(v@) =~= error_chain(self@));
        v
    }
}

} // verus!
