//! SSL selections and where certbot leaves a domain's certificate.
use vstd::prelude::*;

use crate::error::NrpError;
use crate::text::str_equal;

verus! {

/// Whether and how a proxy serves HTTPS.
#[derive(Clone, Copy, Debug, PartialEq, Eq, Structural)]
pub enum SSLSelection {
    /// No SSL.
    False,
    /// SSL, without redirecting plain HTTP.
    NoRedirect,
    /// SSL, redirecting plain HTTP to HTTPS.
    Redirect,
}

/// The name of a selection, as the command line and the configuration file write it.
pub open spec fn ssl_selection_name(s: SSLSelection) -> Seq<char> {
    match s {
        SSLSelection::False => "false"@,
        SSLSelection::NoRedirect => "no-redirect"@,
        SSLSelection::Redirect => "redirect"@,
    }
}

/// The selection that a name stands for, if any.
pub open spec fn ssl_selection_from_name(t: Seq<char>) -> Option<SSLSelection> {
    if t == "false"@ {
        Some(SSLSelection::False)
    } else if t == "no-redirect"@ {
        Some(SSLSelection::NoRedirect)
    } else if t == "redirect"@ {
        Some(SSLSelection::Redirect)
    } else {
        None
    }
}

/// The path at which certbot stores a domain's certificate chain.
pub open spec fn certificate_path_spec(d: Seq<char>) -> Seq<char> {
    "/etc/letsencrypt/live/"@ + d + "/fullchain.pem"@
}

/// The path at which certbot stores a domain's private key.
pub open spec fn certificate_key_path_spec(d: Seq<char>) -> Seq<char> {
    "/etc/letsencrypt/live/"@ + d + "/privkey.pem"@
}

impl SSLSelection {
    /// Whether the selection enables SSL at all.
    pub fn is_true(&self) -> (r: bool)
        ensures
            r == (*self != SSLSelection::False),
    {
        match self {
            SSLSelection::False => false,
            SSLSelection::NoRedirect => true,
            SSLSelection::Redirect => true,
        }
    }

    /// The selection's name.
    pub fn to_string(&self) -> (r: String)
        ensures
            r@ == ssl_selection_name(*self),
    {
        match self {
            SSLSelection::False => String::from_str("false"),
            SSLSelection::NoRedirect => String::from_str("no-redirect"),
            SSLSelection::Redirect => String::from_str("redirect"),
        }
    }

    /// Reads a selection from its name; any other text is refused.
    pub fn from_str(input: &str) -> (r: Result<SSLSelection, NrpError>)
        ensures
            match ssl_selection_from_name(input@) {
                Some(s) => r == Ok::<SSLSelection, NrpError>(s),
                None => r matches Err(NrpError::UnknownSslSelection),
            },
    {
        if str_equal(input, "false") {
            Ok(SSLSelection::False)
        } else if str_equal(input, "no-redirect") {
            Ok(SSLSelection::NoRedirect)
        } else if str_equal(input, "redirect") {
            Ok(SSLSelection::Redirect)
        } else {
            Err(NrpError::UnknownSslSelection)
        }
    }
}

/// Reading back the name of a selection gives the selection.
pub proof fn law_ssl_selection_name_roundtrip(s: SSLSelection)
    ensures
        ssl_selection_from_name(ssl_selection_name(s)) == Some(s),
{
    reveal_strlit("false");
    reveal_strlit("no-redirect");
    reveal_strlit("redirect");
    assert("false"@.len() != "no-redirect"@.len());
    assert("false"@.len() != "redirect"@.len());
    assert("no-redirect"@.len() != "redirect"@.len());
}

/// The paths of the certificate chain and of the private key that certbot writes for a domain.
pub fn ssl_certificate_paths(listen_domain: &str) -> (r: (String, String))
    ensures
        r.0@ == certificate_path_spec(listen_domain@),
        r.1@ == certificate_key_path_spec(listen_domain@),
{
    let mut cert = String::from_str("/etc/letsencrypt/live/");
    cert.append(listen_domain);
    cert.append("/fullchain.pem");
    let mut key = String::from_str("/etc/letsencrypt/live/");
    key.append(listen_domain);
    key.append("/privkey.pem");
    (cert, key)
}

/// The port a new proxy listens on: a proxy that redirects plain HTTP to HTTPS does not
/// listen on port 80 itself, so a requested port 80 becomes 443.
pub fn listen_port_for_ssl(ssl: Option<SSLSelection>, listen_port: u16) -> (r: u16)
    ensures
        r == (if ssl == Some(SSLSelection::Redirect) && listen_port == 80 {
            443
        } else {
            listen_port
        }),
{
    match ssl {
        Some(SSLSelection::Redirect) => if listen_port == 80 {
            443
        } else {
            listen_port
        },
        _ => listen_port,
    }
}

} // verus!
