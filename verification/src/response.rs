//! Response construction and serialization. The protocol core uses this
//! to write the WebSocket handshake and error responses; everything else
//! about responses is a plain data structure around the verified header
//! map.

use vstd::prelude::*;
use vstd::string::*;
use crate::headers::{Headers, HeaderEntry, str_bytes, spec_set, spec_set_multiple,
    raw_values_view};
use crate::num::{dec_digits, usize_to_dec};
use crate::cookie;

verus! {

/// What the connection handler needs from any response value.
pub trait AbstractResponse {
    /// The status line the response carries. An implementation outside
    /// the verified core may leave the model items at their defaults,
    /// under which nothing is promised of it.
    open spec fn resp_status(&self) -> (u32, Seq<char>) {
        (0u32, Seq::empty())
    }

    /// The header entries the response carries.
    open spec fn resp_headers(&self) -> Seq<HeaderEntry> {
        Seq::empty()
    }

    /// The body bytes the response carries.
    open spec fn resp_body(&self) -> Seq<u8> {
        Seq::empty()
    }

    /// Whether the handler should serialize and send this response.
    open spec fn resp_serve_default(&self) -> bool {
        false
    }

    /// Whether the connection must close after this response.
    open spec fn resp_should_close(&self) -> bool {
        true
    }

    /// Status code and status text.
    fn status(&self) -> (r: (u32, String))
        ensures
            r.0 == self.resp_status().0,
            r.1@ == self.resp_status().1,
    ;

    /// Whether the handler should serialize and send this response.
    fn serve_default(&mut self) -> (r: bool)
        ensures
            r == old(self).resp_serve_default(),
            final(self).resp_status() == old(self).resp_status(),
            final(self).resp_headers() == old(self).resp_headers(),
            final(self).resp_body() == old(self).resp_body(),
            final(self).resp_serve_default() == old(self).resp_serve_default(),
            final(self).resp_should_close() == old(self).resp_should_close(),
    ;

    /// The response headers.
    fn get_headers(&mut self) -> (r: &mut Headers)
        ensures
            r@ == old(self).resp_headers(),
            final(self).resp_headers() == final(r)@,
            final(self).resp_status() == old(self).resp_status(),
            final(self).resp_body() == old(self).resp_body(),
            final(self).resp_serve_default() == old(self).resp_serve_default(),
            final(self).resp_should_close() == old(self).resp_should_close(),
    ;

    /// The response body bytes.
    fn get_body(&mut self) -> (r: &mut Vec<u8>)
        ensures
            r@ == old(self).resp_body(),
            final(self).resp_body() == final(r)@,
            final(self).resp_status() == old(self).resp_status(),
            final(self).resp_headers() == old(self).resp_headers(),
            final(self).resp_serve_default() == old(self).resp_serve_default(),
            final(self).resp_should_close() == old(self).resp_should_close(),
    ;

    /// Whether the connection must close after this response.
    fn should_close(&mut self) -> (r: bool)
        ensures
            r == old(self).resp_should_close(),
            final(self).resp_status() == old(self).resp_status(),
            final(self).resp_headers() == old(self).resp_headers(),
            final(self).resp_body() == old(self).resp_body(),
            final(self).resp_serve_default() == old(self).resp_serve_default(),
            final(self).resp_should_close() == old(self).resp_should_close(),
    ;
}

/// Builds responses from a status code and text.
pub trait ResponseStatus: Sized {
    fn with_status(status_code: u32, status_text: &str) -> Self;

    fn switching_protocols() -> Self {
        Self::with_status(101, "Switching Protocols")
    }

    fn ok() -> Self {
        Self::with_status(200, "OK")
    }

    fn created() -> Self {
        Self::with_status(201, "Created")
    }

    fn accepted() -> Self {
        Self::with_status(202, "Accepted")
    }

    fn processing() -> Self {
        Self::with_status(102, "Processing")
    }

    fn early_hints() -> Self {
        Self::with_status(103, "Early Hints")
    }

    fn non_authoritative_information() -> Self {
        Self::with_status(203, "Non-Authoritative Information")
    }

    fn no_content() -> Self {
        Self::with_status(204, "No Content")
    }

    fn reset_content() -> Self {
        Self::with_status(205, "Reset Content")
    }

    fn partial_content() -> Self {
        Self::with_status(206, "Partial Content")
    }

    fn multi_status() -> Self {
        Self::with_status(207, "Multi-Status")
    }

    fn already_reported() -> Self {
        Self::with_status(208, "Already Reported")
    }

    fn im_used() -> Self {
        Self::with_status(226, "IM Used")
    }

    fn multiple_choices() -> Self {
        Self::with_status(300, "Multiple Choices")
    }

    fn moved_permanently() -> Self {
        Self::with_status(301, "Moved Permanently")
    }

    fn found() -> Self {
        Self::with_status(302, "Found")
    }

    fn see_other() -> Self {
        Self::with_status(303, "See Other")
    }

    fn not_modified() -> Self {
        Self::with_status(304, "Not Modified")
    }

    fn use_proxy() -> Self {
        Self::with_status(305, "Use Proxy")
    }

    fn unused() -> Self {
        Self::with_status(306, "Unused")
    }

    fn temporary_redirect() -> Self {
        Self::with_status(307, "Temporary Redirect")
    }

    fn permanent_redirect() -> Self {
        Self::with_status(308, "Permanent Redirect")
    }

    fn bad_request() -> Self {
        Self::with_status(400, "Bad Request")
    }

    fn unauthorized() -> Self {
        Self::with_status(401, "Unauthorized")
    }

    fn payment_required() -> Self {
        Self::with_status(402, "Payment Required")
    }

    fn forbidden() -> Self {
        Self::with_status(403, "Forbidden")
    }

    fn not_found() -> Self {
        Self::with_status(404, "Not Found")
    }

    fn method_not_allowed() -> Self {
        Self::with_status(405, "Method Not Allowed")
    }

    fn not_acceptable() -> Self {
        Self::with_status(406, "Not Acceptable")
    }

    fn proxy_authentication_required() -> Self {
        Self::with_status(407, "Proxy Authentication Required")
    }

    fn request_timeout() -> Self {
        Self::with_status(408, "Request Timeout")
    }

    fn conflict() -> Self {
        Self::with_status(409, "Conflict")
    }

    fn gone() -> Self {
        Self::with_status(410, "Gone")
    }

    fn length_required() -> Self {
        Self::with_status(411, "Length Required")
    }

    fn precondition_failed() -> Self {
        Self::with_status(412, "Precondition Failed")
    }

    fn payload_too_large() -> Self {
        Self::with_status(413, "Payload Too Large")
    }

    fn uri_too_long() -> Self {
        Self::with_status(414, "URI Too Long")
    }

    fn unsupported_media_type() -> Self {
        Self::with_status(415, "Unsupported Media Type")
    }

    fn range_not_satisfiable() -> Self {
        Self::with_status(416, "Range Not Satisfiable")
    }

    fn expectation_failed() -> Self {
        Self::with_status(417, "Expectation Failed")
    }

    fn im_a_teapot() -> Self {
        Self::with_status(418, "I'm a teapot")
    }

    fn misdirected_request() -> Self {
        Self::with_status(421, "Misdirected Request")
    }

    fn unprocessable_content() -> Self {
        Self::with_status(422, "Unprocessable Content")
    }

    fn locked() -> Self {
        Self::with_status(423, "Locked")
    }

    fn failed_dependency() -> Self {
        Self::with_status(424, "Failed Dependency")
    }

    fn too_early() -> Self {
        Self::with_status(425, "Too Early")
    }

    fn upgrade_required() -> Self {
        Self::with_status(426, "Upgrade Required")
    }

    fn precondition_required() -> Self {
        Self::with_status(428, "Precondition Required")
    }

    fn too_many_requests() -> Self {
        Self::with_status(429, "Too Many Requests")
    }

    fn request_header_fields_too_large() -> Self {
        Self::with_status(431, "Request Header Fields Too Large")
    }

    fn unavailable_for_legal_reasons() -> Self {
        Self::with_status(451, "Unavailable For Legal Reasons")
    }

    fn internal_server_error() -> Self {
        Self::with_status(500, "Internal Server Error")
    }

    fn not_implemented() -> Self {
        Self::with_status(501, "Not Implemented")
    }

    fn bad_gateway() -> Self {
        Self::with_status(502, "Bad Gateway")
    }

    fn service_unavailable() -> Self {
        Self::with_status(503, "Service Unavailable")
    }

    fn gateway_timeout() -> Self {
        Self::with_status(504, "Gateway Timeout")
    }

    fn http_version_not_supported() -> Self {
        Self::with_status(505, "HTTP Version Not Supported")
    }

    fn variant_also_negotiates() -> Self {
        Self::with_status(506, "Variant Also Negotiates")
    }

    fn insufficient_storage() -> Self {
        Self::with_status(507, "Insufficient Storage")
    }

    fn loop_detected() -> Self {
        Self::with_status(508, "Loop Detected")
    }

    fn not_extended() -> Self {
        Self::with_status(510, "Not Extended")
    }

    fn network_authentication_required() -> Self {
        Self::with_status(511, "Network Authentication Required")
    }
}

/// A plain HTTP response: status line, headers and body bytes.
pub struct HttpResponse {
    status_code: u32,
    status_text: String,
    headers: Headers,
    body: Vec<u8>,
    keep_alive: bool,
    serve_default: bool,
}

impl HttpResponse {
    pub closed spec fn spec_status(&self) -> (u32, Seq<char>) {
        (self.status_code, self.status_text@)
    }

    pub closed spec fn spec_headers(&self) -> Seq<HeaderEntry> {
        self.headers@
    }

    pub closed spec fn spec_body(&self) -> Seq<u8> {
        self.body@
    }

    pub closed spec fn spec_keep_alive(&self) -> bool {
        self.keep_alive
    }

    pub closed spec fn spec_serve_default(&self) -> bool {
        self.serve_default
    }

    pub open spec fn wf(&self) -> bool {
        crate::headers::entries_wf(self.spec_headers())
    }

    /// Sets the `Content-Type` header.
    pub fn content_type(self, value: &str) -> (r: Self)
        requires
            self.wf(),
        ensures
            r.wf(),
            r.spec_headers() == spec_set(
                self.spec_headers(),
                str_bytes("Content-Type"@),
                str_bytes(value@),
            ),
            r.spec_status() == self.spec_status(),
            r.spec_body() == self.spec_body(),
            r.spec_keep_alive() == self.spec_keep_alive(),
            r.spec_serve_default() == self.spec_serve_default(),
    {
        let mut this = self;
        this.headers.set("Content-Type", value.as_bytes());
        proof {
            lemma_spec_set_wf(self.spec_headers(), str_bytes("Content-Type"@), str_bytes(value@));
        }
        this
    }

    /// Marks the connection to close after this response when `is_alive`
    /// is set; the stored flag is the argument inverted.
    pub fn keep_alive(self, is_alive: bool) -> (r: Self)
        ensures
            r.spec_keep_alive() == !is_alive,
            r.spec_headers() == self.spec_headers(),
            r.spec_status() == self.spec_status(),
            r.spec_body() == self.spec_body(),
            r.spec_serve_default() == self.spec_serve_default(),
    {
        let mut this = self;
        this.keep_alive = !is_alive;
        this
    }

    /// Tells the handler not to serialize this response itself.
    pub fn disable_serve_default(self) -> (r: Self)
        ensures
            !r.spec_serve_default(),
            r.spec_headers() == self.spec_headers(),
            r.spec_status() == self.spec_status(),
            r.spec_body() == self.spec_body(),
            r.spec_keep_alive() == self.spec_keep_alive(),
    {
        let mut this = self;
        this.serve_default = false;
        this
    }

    /// Sets the `Location` header for a redirect.
    pub fn location(self, url: &str) -> (r: Box<Self>)
        requires
            self.wf(),
        ensures
            r.wf(),
            r.spec_headers() == spec_set(
                self.spec_headers(),
                str_bytes("Location"@),
                str_bytes(url@),
            ),
            r.spec_status() == self.spec_status(),
            r.spec_body() == self.spec_body(),
            r.spec_keep_alive() == self.spec_keep_alive(),
            r.spec_serve_default() == self.spec_serve_default(),
    {
        let mut this = self;
        this.headers.set("Location", url.as_bytes());
        proof {
            lemma_spec_set_wf(self.spec_headers(), str_bytes("Location"@), str_bytes(url@));
        }
        Box::new(this)
    }

    /// Sets the body: its bytes, `Content-Length`, a `text/html` content
    /// type, and a `Connection` header when none is set yet.
    pub fn body(self, data: &str) -> (r: Box<Self>)
        requires
            self.wf(),
        ensures
            r.wf(),
            r.spec_body() == str_bytes(data@),
            r.spec_status() == self.spec_status(),
            r.spec_keep_alive() == self.spec_keep_alive(),
            r.spec_serve_default() == self.spec_serve_default(),
            r.spec_headers() == ({
                let h1 = spec_set(
                    self.spec_headers(),
                    str_bytes("Content-Length"@),
                    dec_digits(str_bytes(data@).len()),
                );
                let h2 = spec_set(h1, str_bytes("Content-Type"@), str_bytes("text/html"@));
                if crate::headers::header_lookup(h2, str_bytes("Connection"@)) is None {
                    if self.spec_keep_alive() {
                        spec_set(h2, str_bytes("Connection"@), str_bytes("keep-alive"@))
                    } else {
                        spec_set(h2, str_bytes("Connection"@), str_bytes("close"@))
                    }
                } else {
                    h2
                }
            }),
    {
        let mut this = self;
        let data_bytes = data.as_bytes();
        let len_text = usize_to_dec(data_bytes.len());
        this.headers.set("Content-Length", len_text.as_slice());
        this.headers.set("Content-Type", "text/html".as_bytes());
        proof {
            lemma_spec_set_wf(
                self.spec_headers(),
                str_bytes("Content-Length"@),
                dec_digits(str_bytes(data@).len()),
            );
            lemma_spec_set_wf(this.headers@, str_bytes("Content-Type"@), str_bytes("text/html"@));
        }
        let has_connection = this.headers.value("Connection").is_some();
        if !has_connection {
            if this.keep_alive {
                this.headers.set("Connection", "keep-alive".as_bytes());
                proof {
                    lemma_spec_set_wf(
                        this.headers@,
                        str_bytes("Connection"@),
                        str_bytes("keep-alive"@),
                    );
                }
            } else {
                this.headers.set("Connection", "close".as_bytes());
                proof {
                    lemma_spec_set_wf(this.headers@, str_bytes("Connection"@), str_bytes("close"@));
                }
            }
        }
        this.body = vstd::slice::slice_to_vec(data_bytes);
        Box::new(this)
    }

    /// An empty body.
    pub fn empty(self) -> (r: Box<Self>)
        requires
            self.wf(),
        ensures
            r.wf(),
            r.spec_body() == str_bytes(""@),
            r.spec_status() == self.spec_status(),
    {
        self.body("")
    }

    /// Adds a `Set-Cookie` header for `name`, urlencoded, expiring after
    /// `max_age_secs`.
    pub fn set_cookie(&mut self, name: &str, value: &str, max_age_secs: u64)
        requires
            old(self).wf(),
            max_age_secs <= crate::cookie::MAX_COOKIE_AGE_SECS,
        ensures
            final(self).wf(),
            exists|v: Seq<u8>|
                final(self).spec_headers() == spec_set_multiple(
                    old(self).spec_headers(),
                    str_bytes("Set-Cookie"@),
                    v,
                ),
            final(self).spec_status() == old(self).spec_status(),
            final(self).spec_body() == old(self).spec_body(),
    {
        cookie::set_cookie(&mut self.headers, name, value, max_age_secs);
        proof {
            lemma_spec_set_multiple_wf(
                old(self).spec_headers(),
                str_bytes("Set-Cookie"@),
                choose|v: Seq<u8>|
                    final(self).headers@ == spec_set_multiple(
                        old(self).headers@,
                        str_bytes("Set-Cookie"@),
                        v,
                    ),
            );
        }
    }

    /// Adds a `Set-Cookie` header that expires `name` immediately.
    pub fn remove_cookie(&mut self, name: &str)
        requires
            old(self).wf(),
        ensures
            final(self).wf(),
            final(self).spec_headers() == spec_set_multiple(
                old(self).spec_headers(),
                str_bytes("Set-Cookie"@),
                str_bytes(name@) + str_bytes(
                    "=;Expires=Sun, 06 Nov 1994 08:49:37 GMT; Path=/"@,
                ),
            ),
            final(self).spec_status() == old(self).spec_status(),
            final(self).spec_body() == old(self).spec_body(),
    {
        let mut v = name.as_bytes_vec();
        let mut tail = "=;Expires=Sun, 06 Nov 1994 08:49:37 GMT; Path=/".as_bytes_vec();
        v.append(&mut tail);
        self.headers.set_multiple("Set-Cookie", v.as_slice());
        proof {
            lemma_spec_set_multiple_wf(
                old(self).spec_headers(),
                str_bytes("Set-Cookie"@),
                str_bytes(name@) + str_bytes("=;Expires=Sun, 06 Nov 1994 08:49:37 GMT; Path=/"@),
            );
        }
    }
}

pub proof fn lemma_spec_set_wf(v: Seq<HeaderEntry>, name: Seq<u8>, value: Seq<u8>)
    requires
        crate::headers::entries_wf(v),
    ensures
        crate::headers::entries_wf(spec_set(v, name, value)),
{
    crate::headers::lemma_ci_removed_wf(v, name);
    let t = spec_set(v, name, value);
    let base = crate::headers::ci_removed(v, name);
    assert forall|i: int| 0 <= i < t.len() implies #[trigger] t[i].1.len() > 0 by {
        if i < base.len() {
            assert(t[i] == base[i]);
        }
    }
}

pub proof fn lemma_spec_set_multiple_wf(v: Seq<HeaderEntry>, name: Seq<u8>, value: Seq<u8>)
    requires
        crate::headers::entries_wf(v),
    ensures
        crate::headers::entries_wf(spec_set_multiple(v, name, value)),
{
    let t = spec_set_multiple(v, name, value);
    crate::headers::lemma_lookup_props(v, name, 0);
    assert forall|i: int| 0 <= i < t.len() implies #[trigger] t[i].1.len() > 0 by {
        match crate::headers::header_lookup(v, name) {
            Some(k) => {
                if i != k {
                    assert(t[i] == v[i]);
                }
            },
            None => {
                if i < v.len() {
                    assert(t[i] == v[i]);
                }
            },
        }
    }
}

impl HttpResponse {
    /// A response with the given status, no headers and no body.
    pub fn new_with_status(status_code: u32, status_text: &str) -> (r: Self)
        ensures
            r.wf(),
            r.spec_status() == (status_code, status_text@),
            r.spec_headers() == Seq::<HeaderEntry>::empty(),
            r.spec_body() == Seq::<u8>::empty(),
            r.spec_keep_alive(),
            r.spec_serve_default(),
    {
        let r = Self {
            status_code,
            status_text: String::from_str(status_text),
            headers: Headers::new(),
            body: Vec::new(),
            keep_alive: true,
            serve_default: true,
        };
        proof {
            assert(r.spec_body() =~= Seq::<u8>::empty());
        }
        r
    }

    /// The stored headers, for reading back what was set.
    pub fn headers_ref(&self) -> (r: &Headers)
        ensures
            r@ == self.spec_headers(),
    {
        &self.headers
    }

    /// Sets one header, replacing earlier values under the name.
    pub fn set_header(&mut self, name: &str, value: &[u8])
        requires
            old(self).wf(),
        ensures
            final(self).wf(),
            final(self).spec_headers() == spec_set(
                old(self).spec_headers(),
                str_bytes(name@),
                value@,
            ),
            final(self).spec_status() == old(self).spec_status(),
            final(self).spec_body() == old(self).spec_body(),
            final(self).spec_keep_alive() == old(self).spec_keep_alive(),
            final(self).spec_serve_default() == old(self).spec_serve_default(),
    {
        self.headers.set(name, value);
        proof {
            lemma_spec_set_wf(old(self).spec_headers(), str_bytes(name@), value@);
        }
    }
}

impl AbstractResponse for HttpResponse {
    closed spec fn resp_status(&self) -> (u32, Seq<char>) {
        (self.status_code, self.status_text@)
    }

    closed spec fn resp_headers(&self) -> Seq<HeaderEntry> {
        self.headers@
    }

    closed spec fn resp_body(&self) -> Seq<u8> {
        self.body@
    }

    closed spec fn resp_serve_default(&self) -> bool {
        self.serve_default
    }

    closed spec fn resp_should_close(&self) -> bool {
        !self.keep_alive
    }

    fn status(&self) -> (u32, String) {
        (self.status_code, self.status_text.clone())
    }

    fn serve_default(&mut self) -> bool {
        self.serve_default
    }

    fn get_headers(&mut self) -> &mut Headers {
        &mut self.headers
    }

    fn get_body(&mut self) -> &mut Vec<u8> {
        &mut self.body
    }

    fn should_close(&mut self) -> bool {
        !self.keep_alive
    }
}

impl ResponseStatus for HttpResponse {
    fn with_status(status_code: u32, status_text: &str) -> Self {
        Self {
            status_code,
            status_text: String::from_str(status_text),
            headers: Headers::new(),
            body: Vec::new(),
            keep_alive: true,
            serve_default: true,
        }
    }
}

/// A response whose body is a serialized JSON text; the content type is
/// set at construction.
pub struct JsonResponse {
    http_response: HttpResponse,
}

impl JsonResponse {
    pub closed spec fn inner(&self) -> HttpResponse {
        self.http_response
    }

    pub open spec fn wf(&self) -> bool {
        self.inner().wf()
    }

    /// Sets the body to an already-serialized JSON text, with its
    /// `Content-Length` and a `Connection` header when none is set yet;
    /// the content type set at construction stays.
    pub fn body(self, json_text: &str) -> (r: Box<Self>)
        requires
            self.wf(),
        ensures
            r.wf(),
            r.inner().spec_body() == str_bytes(json_text@),
            r.inner().spec_status() == self.inner().spec_status(),
            r.inner().spec_keep_alive() == self.inner().spec_keep_alive(),
            r.inner().spec_serve_default() == self.inner().spec_serve_default(),
            r.inner().spec_headers() == ({
                let h1 = spec_set(
                    self.inner().spec_headers(),
                    str_bytes("Content-Length"@),
                    dec_digits(str_bytes(json_text@).len()),
                );
                if crate::headers::header_lookup(h1, str_bytes("Connection"@)) is None {
                    if self.inner().spec_keep_alive() {
                        spec_set(h1, str_bytes("Connection"@), str_bytes("keep-alive"@))
                    } else {
                        spec_set(h1, str_bytes("Connection"@), str_bytes("close"@))
                    }
                } else {
                    h1
                }
            }),
    {
        let mut this = self.http_response;
        let data_bytes = json_text.as_bytes();
        let len_text = usize_to_dec(data_bytes.len());
        this.headers.set("Content-Length", len_text.as_slice());
        proof {
            lemma_spec_set_wf(
                this.headers@,
                str_bytes("Content-Length"@),
                dec_digits(str_bytes(json_text@).len()),
            );
        }
        let has_connection = this.headers.value("Connection").is_some();
        if !has_connection {
            if this.keep_alive {
                this.headers.set("Connection", "keep-alive".as_bytes());
                proof {
                    lemma_spec_set_wf(
                        this.headers@,
                        str_bytes("Connection"@),
                        str_bytes("keep-alive"@),
                    );
                }
            } else {
                this.headers.set("Connection", "close".as_bytes());
                proof {
                    lemma_spec_set_wf(this.headers@, str_bytes("Connection"@), str_bytes("close"@));
                }
            }
        }
        this.body = vstd::slice::slice_to_vec(data_bytes);
        Box::new(JsonResponse { http_response: this })
    }

    /// An empty JSON object body.
    pub fn empty(self) -> (r: Box<Self>)
        requires
            self.wf(),
        ensures
            r.wf(),
            r.inner().spec_body() == str_bytes("{}"@),
    {
        self.body("{}")
    }

    /// Adds a `Set-Cookie` header, urlencoded, expiring after
    /// `max_age_secs`.
    pub fn set_cookie(&mut self, name: &str, value: &str, max_age_secs: u64)
        requires
            old(self).wf(),
            max_age_secs <= crate::cookie::MAX_COOKIE_AGE_SECS,
        ensures
            final(self).wf(),
            exists|v: Seq<u8>|
                final(self).inner().spec_headers() == spec_set_multiple(
                    old(self).inner().spec_headers(),
                    str_bytes("Set-Cookie"@),
                    v,
                ),
            final(self).inner().spec_status() == old(self).inner().spec_status(),
            final(self).inner().spec_body() == old(self).inner().spec_body(),
    {
        self.http_response.set_cookie(name, value, max_age_secs);
    }

    /// Adds a `Set-Cookie` header that expires `name` immediately.
    pub fn remove_cookie(&mut self, name: &str)
        requires
            old(self).wf(),
        ensures
            final(self).wf(),
            final(self).inner().spec_headers() == spec_set_multiple(
                old(self).inner().spec_headers(),
                str_bytes("Set-Cookie"@),
                str_bytes(name@) + str_bytes(
                    "=;Expires=Sun, 06 Nov 1994 08:49:37 GMT; Path=/"@,
                ),
            ),
            final(self).inner().spec_status() == old(self).inner().spec_status(),
            final(self).inner().spec_body() == old(self).inner().spec_body(),
    {
        self.http_response.remove_cookie(name);
    }
}

impl AbstractResponse for JsonResponse {
    closed spec fn resp_status(&self) -> (u32, Seq<char>) {
        (self.http_response.status_code, self.http_response.status_text@)
    }

    closed spec fn resp_headers(&self) -> Seq<HeaderEntry> {
        self.http_response.headers@
    }

    closed spec fn resp_body(&self) -> Seq<u8> {
        self.http_response.body@
    }

    closed spec fn resp_serve_default(&self) -> bool {
        self.http_response.serve_default
    }

    closed spec fn resp_should_close(&self) -> bool {
        !self.http_response.keep_alive
    }

    fn status(&self) -> (u32, String) {
        self.http_response.status()
    }

    fn serve_default(&mut self) -> bool {
        self.http_response.serve_default()
    }

    fn get_headers(&mut self) -> &mut Headers {
        self.http_response.get_headers()
    }

    fn get_body(&mut self) -> &mut Vec<u8> {
        self.http_response.get_body()
    }

    fn should_close(&mut self) -> bool {
        self.http_response.should_close()
    }
}

impl ResponseStatus for JsonResponse {
    fn with_status(status_code: u32, status_text: &str) -> Self {
        let mut headers = Headers::new();
        headers.set("Content-Type", "application/json".as_bytes());
        Self {
            http_response: HttpResponse {
                status_code,
                status_text: String::from_str(status_text),
                headers,
                body: Vec::new(),
                keep_alive: true,
                serve_default: true,
            },
        }
    }
}

/// One `Name: value\r\n` line per stored value of one header entry.
pub open spec fn wire_values(name: Seq<u8>, vals: Seq<Seq<u8>>) -> Seq<u8>
    decreases vals.len(),
{
    if vals.len() == 0 {
        Seq::empty()
    } else {
        wire_values(name, vals.drop_last()) + name + seq![58u8, 32u8] + vals.last() + seq![
            13u8,
            10u8,
        ]
    }
}

/// The header block of a serialized response, entry by entry in stored
/// order.
pub open spec fn wire_entries(hv: Seq<HeaderEntry>) -> Seq<u8>
    decreases hv.len(),
{
    if hv.len() == 0 {
        Seq::empty()
    } else {
        wire_entries(hv.drop_last()) + wire_values(hv.last().0, hv.last().1)
    }
}

/// A serialized response head: `HTTP/1.1 code text`, the header lines,
/// and the blank line before the body.
pub open spec fn spec_head_wire(code: u32, text: Seq<char>, hv: Seq<HeaderEntry>) -> Seq<u8> {
    str_bytes("HTTP/1.1 "@) + dec_digits(code as nat) + seq![32u8] + str_bytes(text) + seq![
        13u8,
        10u8,
    ] + wire_entries(hv) + seq![13u8, 10u8]
}

/// Serializes a response head from its parts, byte-exact with
/// `spec_head_wire`.
pub fn wire_head_bytes(status_code: u32, status_text: &str, headers: &Headers) -> (r: Vec<u8>)
    ensures
        r@ == spec_head_wire(status_code, status_text@, headers@),
{
    let mut out = "HTTP/1.1 ".as_bytes_vec();
    let mut code = usize_to_dec(status_code as usize);
    proof {
        assert((status_code as usize) as nat == status_code as nat);
    }
    out.append(&mut code);
    out.push(32u8);
    let mut text = status_text.as_bytes_vec();
    out.append(&mut text);
    out.push(13u8);
    out.push(10u8);
    let ghost head = str_bytes("HTTP/1.1 "@) + dec_digits(status_code as nat) + seq![32u8]
        + str_bytes(status_text@) + seq![13u8, 10u8];
    proof {
        assert(out@ =~= head);
    }
    let entries = headers.entries();
    let ghost hv = headers@;
    let n: usize = entries.len();
    let mut i: usize = 0;
    proof {
        assert(wire_entries(hv.take(0)) =~= Seq::<u8>::empty());
        assert(out@ =~= head + wire_entries(hv.take(0)));
    }
    while i < n
        invariant
            0 <= i <= n,
            n == entries@.len(),
            entries@.len() == hv.len(),
            forall|k: int|
                0 <= k < entries@.len() ==> #[trigger] str_bytes(entries@[k].0@) == hv[k].0
                    && raw_values_view(entries@[k].1@) == hv[k].1,
            out@ == head + wire_entries(hv.take(i as int)),
        decreases n - i,
    {
        let ghost before_entry = out@;
        proof {
            assert(hv.take(i + 1).drop_last() =~= hv.take(i as int));
            assert(hv.take(i + 1).last() == hv[i as int]);
            assert(str_bytes(entries@[i as int].0@) == hv[i as int].0);
            assert(raw_values_view(entries@[i as int].1@) == hv[i as int].1);
        }
        let m: usize = entries[i].1.len();
        let mut j: usize = 0;
        proof {
            assert(wire_values(hv[i as int].0, hv[i as int].1.take(0)) =~= Seq::<u8>::empty());
            assert(out@ =~= before_entry + wire_values(hv[i as int].0, hv[i as int].1.take(0)));
        }
        while j < m
            invariant
                0 <= j <= m,
                0 <= i < n,
                n == entries@.len(),
                entries@.len() == hv.len(),
                m == entries@[i as int].1@.len(),
                forall|k: int|
                    0 <= k < entries@.len() ==> #[trigger] str_bytes(entries@[k].0@) == hv[k].0
                        && raw_values_view(entries@[k].1@) == hv[k].1,
                hv[i as int].1.len() == m,
                out@ == before_entry + wire_values(hv[i as int].0, hv[i as int].1.take(j as int)),
            decreases m - j,
        {
            proof {
                assert(str_bytes(entries@[i as int].0@) == hv[i as int].0 && raw_values_view(
                    entries@[i as int].1@,
                ) == hv[i as int].1);
                assert(hv[i as int].1.take(j + 1).drop_last() =~= hv[i as int].1.take(j as int));
                assert(hv[i as int].1.take(j + 1).last() == hv[i as int].1[j as int]);
            }
            let mut nb = entries[i].0.as_str().as_bytes_vec();
            out.append(&mut nb);
            out.push(58u8);
            out.push(32u8);
            let mut vb = vstd::slice::slice_to_vec(entries[i].1[j].as_slice());
            proof {
                assert(entries@[i as int].1@[j as int]@ == hv[i as int].1[j as int]);
            }
            out.append(&mut vb);
            out.push(13u8);
            out.push(10u8);
            proof {
                assert(out@ =~= before_entry + wire_values(
                    hv[i as int].0,
                    hv[i as int].1.take(j + 1),
                ));
            }
            j += 1;
        }
        proof {
            assert(hv[i as int].1.take(m as int) =~= hv[i as int].1);
            assert(out@ =~= head + wire_entries(hv.take(i + 1)));
        }
        i += 1;
    }
    proof {
        assert(hv.take(n as int) =~= hv);
    }
    out.push(13u8);
    out.push(10u8);
    proof {
        assert(out@ =~= spec_head_wire(status_code, status_text@, hv));
    }
    out
}

impl HttpResponse {
    /// Serializes this response, byte-exact: the head as
    /// `spec_head_wire` says, then the body.
    pub fn to_bytes(&self) -> (r: Vec<u8>)
        ensures
            r@ == spec_head_wire(self.spec_status().0, self.spec_status().1, self.spec_headers())
                + self.spec_body(),
    {
        let mut out = wire_head_bytes(self.status_code, self.status_text.as_str(), &self.headers);
        let mut body = vstd::slice::slice_to_vec(self.body.as_slice());
        out.append(&mut body);
        out
    }
}

/// Serializes any response behind the trait: `HTTP/1.1 code text`, one
/// line per stored header value (repeated values each on their own
/// line), a blank line, then the body; the response itself is only read.
pub fn response_to_bytes<R: AbstractResponse>(response: &mut R) -> (r: Vec<u8>)
    ensures
        r@ == spec_head_wire(
            old(response).resp_status().0,
            old(response).resp_status().1,
            old(response).resp_headers(),
        ) + old(response).resp_body(),
        final(response).resp_status() == old(response).resp_status(),
        final(response).resp_headers() == old(response).resp_headers(),
        final(response).resp_body() == old(response).resp_body(),
        final(response).resp_serve_default() == old(response).resp_serve_default(),
        final(response).resp_should_close() == old(response).resp_should_close(),
{
    let (status_code, status_text) = response.status();
    let mut out = wire_head_bytes(status_code, status_text.as_str(), response.get_headers());
    let mut body = vstd::slice::slice_to_vec(response.get_body().as_slice());
    out.append(&mut body);
    out
}

} // verus!
