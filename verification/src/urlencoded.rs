//! Urlencoded request-body decoder: a bounded whole-body accumulator plus
//! the percent-decoding splitter.
//!
//! The declared `Content-Length` is read in full, rejected upfront when it
//! passes the body ceiling, and decoded as `&`-separated `key=value`
//! pairs. The outcome depends only on the stream's bytes, the declared
//! length and the ceiling, never on chunk boundaries.

use vstd::prelude::*;
use vstd::string::*;
use crate::forms::{FormConstraints, FormData, FormFieldError};
use crate::headers::{Headers, HeaderEntry, header_lookup, str_bytes};
use crate::num::{all_dec_digits, dec_val, parse_dec_usize};
use crate::parser::spec_parse_url_encoded;
use crate::parser::parse_url_encoded;
use crate::stream::AbstractStream;
use crate::textenc::{lossy_decoded, lossy_string};

verus! {

/// The declared content length: the first `Content-Length` header value,
/// read as an unsigned decimal that fits the machine.
pub open spec fn spec_content_length(hv: Seq<HeaderEntry>) -> Option<int> {
    match header_lookup(hv, str_bytes("Content-Length"@)) {
        None => None,
        Some(i) => {
            let sb = str_bytes(lossy_decoded(hv[i].1[0]));
            if sb.len() > 0 && all_dec_digits(sb) && dec_val(sb) <= usize::MAX {
                Some(dec_val(sb) as int)
            } else {
                None
            }
        },
    }
}

/// Reads and decodes an urlencoded body from a stream.
pub struct UrlEncodedParser<S: AbstractStream> {
    stream: S,
    content_length: usize,
}

impl<S: AbstractStream> UrlEncodedParser<S> {
    pub closed spec fn stream_of(&self) -> S {
        self.stream
    }

    pub closed spec fn length_of(&self) -> int {
        self.content_length as int
    }

    /// A parser for a body whose `Content-Length` the headers declare;
    /// a missing or unreadable declaration is rejected here.
    pub fn from(stream: S, headers: &Headers) -> (r: Result<UrlEncodedParser<S>, FormFieldError>)
        requires
            stream.wf(),
            headers.wf(),
        ensures
            r is Ok <==> spec_content_length(headers@) is Some,
            r matches Ok(p) ==> p.stream_of() == stream && p.length_of() == spec_content_length(
                headers@,
            )->Some_0,
            r matches Err(e) ==> (e matches FormFieldError::Others(f, _, _) && f is None),
    {
        match declared_content_length(headers) {
            Ok(content_length) => Ok(UrlEncodedParser { stream, content_length }),
            Err(e) => Err(e),
        }
    }

    /// Reads exactly the declared number of bytes and decodes them; gives
    /// the stream back beside the result.
    ///
    /// The declared length is rejected upfront when it passes the body
    /// ceiling; a stream that runs out before the declared length is a
    /// transport error, never an empty success.
    pub fn read_all(self, form_constraints: &FormConstraints) -> (r: (
        Result<FormData, FormFieldError>,
        S,
    ))
        requires
            self.stream_of().wf(),
        ensures
            r.1.wf(),
            r.1.chunk_size() == self.stream_of().chunk_size(),
            r.1.written() == self.stream_of().written(),
            ({
                let c = self.stream_of().content();
                let cl = self.length_of();
                let maxb = if self.stream_of().chunk_size() > form_constraints.cfg_body() {
                    self.stream_of().chunk_size() as int
                } else {
                    form_constraints.cfg_body() as int
                };
                &&& (r.0 matches Err(FormFieldError::MaxBodySizeExceed) <==> cl > maxb)
                &&& (r.0 matches Err(FormFieldError::MaxBodySizeExceed) ==> r.1
                    == self.stream_of())
                &&& (r.0 is Ok <==> cl <= maxb && c.len() >= cl)
                &&& (r.0 matches Ok(fd) ==> fd@ == spec_parse_url_encoded(
                    lossy_decoded(c.take(cl)),
                ) && fd.wf())
                &&& (r.0 matches Err(e) ==> (e matches FormFieldError::MaxBodySizeExceed || (
                e matches FormFieldError::Others(f, _, _) && f is None && cl <= maxb && c.len()
                    < cl)))
            }),
    {
        let ghost c = self.stream_of().content();
        let mut stream = self.stream;
        let buffer_size = stream.buffer_size();
        let max_body_size = form_constraints.max_body_size(buffer_size);
        if self.content_length > max_body_size {
            return (Err(FormFieldError::MaxBodySizeExceed), stream);
        }
        let content_length = self.content_length;
        let mut buffer: Vec<u8> = Vec::new();
        proof {
            assert(buffer@ =~= c.take(0));
            assert(stream.content() =~= c.skip(0));
        }
        loop
            invariant
                stream.wf(),
                stream.chunk_size() == self.stream_of().chunk_size(),
                stream.written() == self.stream_of().written(),
                c == self.stream_of().content(),
                content_length == self.length_of(),
                self.length_of() <= if self.stream_of().chunk_size() > form_constraints.cfg_body() {
                    self.stream_of().chunk_size() as int
                } else {
                    form_constraints.cfg_body() as int
                },
                buffer@.len() <= c.len(),
                buffer@ == c.take(buffer@.len() as int),
                stream.content() == c.skip(buffer@.len() as int),
            decreases c.len() + 1 - buffer@.len(),
        {
            let ghost blen = buffer@.len() as int;
            if buffer.len() >= content_length {
                let body = &buffer.as_slice()[0..content_length];
                proof {
                    assert(body@ == buffer@.take(content_length as int));
                    assert(c.take(blen).take(content_length as int) =~= c.take(
                        content_length as int,
                    ));
                }
                let text = lossy_string(body);
                let fd = parse_url_encoded(text.as_str());
                return (Ok(fd), stream);
            }
            match stream.read_chunk() {
                Ok(chunk) => {
                    let ghost ch = chunk@;
                    let mut chunk_m = chunk;
                    buffer.append(&mut chunk_m);
                    proof {
                        assert(buffer@ == c.take(blen) + ch);
                        assert(ch == c.skip(blen).take(ch.len() as int));
                        assert forall|k: int| 0 <= k < buffer@.len() implies buffer@[k] == c.take(
                            blen + ch.len(),
                        )[k] by {
                            if k < blen {
                                assert(buffer@[k] == c.take(blen)[k]);
                            } else {
                                assert(buffer@[k] == ch[k - blen]);
                                assert(ch[k - blen] == c.skip(blen)[k - blen]);
                            }
                        }
                        assert(buffer@ =~= c.take(blen + ch.len()));
                    }
                },
                Err(e) => {
                    proof {
                        assert(c.take(blen) =~= c);
                    }
                    return ((Err(FormFieldError::Others(None, e.description(), true)), stream));
                },
            }
        }
    }

    /// Decodes an urlencoded request body under the configured ceilings;
    /// gives the stream back beside the result.
    pub fn parse(stream: S, headers: &Headers, form_constraints: &FormConstraints) -> (r: (
        Result<FormData, FormFieldError>,
        S,
    ))
        requires
            stream.wf(),
            headers.wf(),
        ensures
            r.1.wf(),
            r.1.chunk_size() == stream.chunk_size(),
            r.1.written() == stream.written(),
            spec_content_length(headers@) is None ==> r.1 == stream,
            ({
                let c = stream.content();
                let cl = spec_content_length(headers@);
                let maxb = if stream.chunk_size() > form_constraints.cfg_body() {
                    stream.chunk_size() as int
                } else {
                    form_constraints.cfg_body() as int
                };
                &&& (cl is None ==> (r.0 matches Err(FormFieldError::Others(f, _, _)) && f is None))
                &&& (cl matches Some(n) ==> {
                    &&& (r.0 matches Err(FormFieldError::MaxBodySizeExceed) <==> n > maxb)
                    &&& (r.0 matches Err(FormFieldError::MaxBodySizeExceed) ==> r.1 == stream)
                    &&& (r.0 is Ok <==> n <= maxb && c.len() >= n)
                    &&& (r.0 matches Ok(fd) ==> fd@ == spec_parse_url_encoded(
                        lossy_decoded(c.take(n)),
                    ) && fd.wf())
                })
            }),
    {
        match declared_content_length(headers) {
            Ok(content_length) => {
                let parser = UrlEncodedParser { stream, content_length };
                parser.read_all(form_constraints)
            },
            Err(e) => (Err(e), stream),
        }
    }
}

/// Reads the declared `Content-Length` out of the headers; a missing or
/// unreadable declaration is a decode error, never a zero-length body.
fn declared_content_length(headers: &Headers) -> (r: Result<usize, FormFieldError>)
    requires
        headers.wf(),
    ensures
        r is Ok <==> spec_content_length(headers@) is Some,
        r matches Ok(n) ==> n == spec_content_length(headers@)->Some_0,
        r matches Err(e) ==> (e matches FormFieldError::Others(f, _, _) && f is None),
{
    let value = headers.value("Content-Length");
    match value {
        None => Err(
            FormFieldError::Others(
                None,
                String::from_str("Content-Length header is missing."),
                false,
            ),
        ),
        Some(text) => {
            match parse_dec_usize(text.as_str().as_bytes()) {
                None => Err(
                    FormFieldError::Others(
                        None,
                        String::from_str("Invalid content length header."),
                        false,
                    ),
                ),
                Some(content_length) => Ok(content_length),
            }
        },
    }
}

} // verus!
