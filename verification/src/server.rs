//! Per-connection configuration consumed by the protocol core. Listening,
//! accepting and TLS setup live outside the verified library.

use vstd::prelude::*;
use crate::textenc::lossy_decoded;

verus! {

/// Ceilings enforced while a request head is read.
pub struct RequestConstraints {
    /// Maximum size of the request line plus header block, in bytes.
    pub max_request_header_size: usize,
    /// Maximum number of header lines the parser will keep.
    pub max_header_count: usize,
}

impl RequestConstraints {
    /// Header ceiling, never below one read chunk.
    pub fn max_request_header_size(&self, buffer_size: usize) -> (r: usize)
        ensures
            r == if buffer_size > self.max_request_header_size {
                buffer_size
            } else {
                self.max_request_header_size
            },
    {
        if buffer_size > self.max_request_header_size {
            return buffer_size;
        }
        self.max_request_header_size
    }
}

/// The scheme reported to request handlers.
#[derive(Debug)]
pub enum RequestScheme {
    HTTP,
    HTTPS,
}

/// Whether the connection may serve another request after this one, as
/// the connection handler decides it: keep-alive is the default from
/// HTTP/1.1 on, a `Connection` header overrides it, and a `GET` request
/// whose body bytes were over-read disables it, because the stream
/// position for the next request can no longer be trusted.
pub open spec fn spec_keep_alive(
    http_version: Option<u8>,
    connection_lower: Option<Seq<u8>>,
    is_get: bool,
    restored_len: nat,
) -> bool {
    let base = match connection_lower {
        Some(v) => v == crate::scan::lower_bytes(crate::headers::str_bytes("keep-alive"@)),
        None => http_version matches Some(v) && v != 0,
    };
    base && !(is_get && restored_len > 0)
}

/// Decides keep-alive for a request from its version, its `Connection`
/// header, its method, and how many body bytes were over-read.
pub fn keep_alive_decision(
    http_version: Option<u8>,
    connection_header: Option<&String>,
    is_get: bool,
    restored_len: usize,
) -> (r: bool)
    ensures
        r == spec_keep_alive(
            http_version,
            match connection_header {
                Some(v) => Some(crate::scan::lower_bytes(crate::headers::str_bytes(v@))),
                None => None,
            },
            is_get,
            restored_len as nat,
        ),
{
    let base = match connection_header {
        Some(value) => crate::scan::eq_ignore_ascii(
            value.as_str().as_bytes(),
            "keep-alive".as_bytes(),
        ),
        None => match http_version {
            Some(v) => v != 0,
            None => false,
        },
    };
    base && !(is_get && restored_len > 0)
}

/// Whether keep-alive survives the body phase: a body the core did not
/// decode was never consumed, so a request of an unhandled kind that
/// declares content (a `Content-Length` other than `0`) ends keep-alive,
/// because the stream position for the next request cannot be trusted.
pub open spec fn spec_keep_alive_after_body(
    keep_alive: bool,
    kind: crate::parser::BodyKind,
    hv: Seq<crate::headers::HeaderEntry>,
) -> bool {
    if kind is Unhandled {
        match crate::headers::header_lookup(hv, crate::headers::str_bytes("Content-Length"@)) {
            Some(i) => if crate::headers::str_bytes(lossy_decoded(hv[i].1[0]))
                == crate::headers::str_bytes("0"@) {
                keep_alive
            } else {
                false
            },
            None => keep_alive,
        }
    } else {
        keep_alive
    }
}

/// Applies the undecoded-body rule to an earlier keep-alive decision.
pub fn keep_alive_after_body(
    keep_alive: bool,
    kind: crate::parser::BodyKind,
    headers: &crate::headers::Headers,
) -> (r: bool)
    requires
        headers.wf(),
    ensures
        r == spec_keep_alive_after_body(keep_alive, kind, headers@),
{
    if !(kind == crate::parser::BodyKind::Unhandled) {
        return keep_alive;
    }
    match headers.value("Content-Length") {
        None => keep_alive,
        Some(v) => {
            if crate::scan::slice_eq(v.as_str().as_bytes(), "0".as_bytes()) {
                keep_alive
            } else {
                false
            }
        },
    }
}

} // verus!
