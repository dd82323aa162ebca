//! Incremental HTTP/1.x request-head reader.
//!
//! Chunks are accumulated until the buffer holds a complete request line
//! plus header block, bounded by a configurable ceiling; bytes past the
//! head terminator are pushed back for the body decoder. Which outcome is
//! reached, and every parsed field, depends only on the bytes the stream
//! carries, never on how they were chunked.

use vstd::prelude::*;
use vstd::string::*;
use crate::headers::{Headers, HeaderEntry, spec_set_multiple, str_bytes};
use crate::scan::{find_sub, find_window, split_bytes, split_bytes_window, lemma_split_bytes_len,
    trim_bytes, trim_slice, slice_eq, lemma_find_from_props, lemma_find_take_some,
    lemma_find_take_none, match_at, char_find, char_find_str, split_chars, split_chars_str};
use crate::forms::{FormData, spec_add_value};
use crate::textenc::url_decoded;
use crate::textenc::url_decode;
use crate::stream::{AbstractStream, StreamError};
use crate::server::RequestConstraints;
use crate::textenc::{lossy_decoded, lossy_string};

verus! {

/// Failure while a request head is read.
#[derive(Debug)]
pub enum RequestError {
    /// The request line plus header block passed the configured ceiling
    /// before its terminator was seen.
    HeaderSizeExceed,
    /// A transport failure, with a description.
    Others(String),
}

/// What the head reader hands back: the parsed request line fields, each
/// absent when the head was complete but unusable, and the header lines.
#[derive(Debug)]
pub struct RequestHeaderResult {
    pub method: Option<String>,
    pub http_version: Option<u8>,
    pub raw_path: Option<String>,
    pub headers: Headers,
}

impl RequestHeaderResult {
    /// An empty result.
    pub fn new() -> (r: Self)
        ensures
            r.method is None,
            r.http_version is None,
            r.raw_path is None,
            r.headers@ == Seq::<HeaderEntry>::empty(),
            r.headers.wf(),
    {
        Self { method: None, http_version: None, raw_path: None, headers: Headers::new() }
    }
}

/// The four bytes `\r\n\r\n` that terminate a head block.
pub open spec fn head_marker() -> Seq<u8> {
    seq![13u8, 10u8, 13u8, 10u8]
}

/// The two bytes of a line break.
pub open spec fn crlf_marker() -> Seq<u8> {
    seq![13u8, 10u8]
}

/// Where the head block ends: the first `\r\n\r\n` in the stream.
pub open spec fn head_split_at(c: Seq<u8>) -> Option<int> {
    find_sub(c, head_marker())
}

/// The lines of a head block, split on `\r\n`.
pub open spec fn head_lines(head: Seq<u8>) -> Seq<Seq<u8>> {
    split_bytes(head, crlf_marker())
}

/// The space-separated tokens of the request line.
pub open spec fn req_tokens(head: Seq<u8>) -> Seq<Seq<u8>> {
    split_bytes(head_lines(head)[0], seq![32u8])
}

/// The request method: the first of exactly three nonempty-method-and-
/// target tokens.
pub open spec fn spec_head_method(head: Seq<u8>) -> Option<Seq<u8>> {
    let t = req_tokens(head);
    if t.len() == 3 && t[0].len() > 0 && t[1].len() > 0 {
        Some(t[0])
    } else {
        None
    }
}

/// The request target, under the same shape requirement as the method.
pub open spec fn spec_head_target(head: Seq<u8>) -> Option<Seq<u8>> {
    let t = req_tokens(head);
    if t.len() == 3 && t[0].len() > 0 && t[1].len() > 0 {
        Some(t[1])
    } else {
        None
    }
}

/// The minor version named by a version token.
pub open spec fn spec_version_code(t: Seq<u8>) -> Option<u8> {
    if t == str_bytes("HTTP/1.1"@) {
        Some(1u8)
    } else if t == str_bytes("HTTP/1.0"@) {
        Some(0u8)
    } else {
        None
    }
}

/// The request's minor HTTP version, from the third request-line token.
pub open spec fn spec_head_version(head: Seq<u8>) -> Option<u8> {
    let t = req_tokens(head);
    if t.len() == 3 {
        spec_version_code(t[2])
    } else {
        None
    }
}

/// How a header name read off the wire is stored: decoded lossily, so the
/// stored bytes of a non-UTF-8 name are those of its replacement text.
pub open spec fn stored_name(nb: Seq<u8>) -> Seq<u8> {
    str_bytes(lossy_decoded(nb))
}

/// The header entries a sequence of header lines produces, in order: each
/// line splits at its first `:` into a trimmed name and a trimmed raw
/// value, and lines without `:` are ignored.
pub open spec fn spec_head_headers(lines: Seq<Seq<u8>>) -> Seq<HeaderEntry>
    decreases lines.len(),
{
    if lines.len() == 0 {
        Seq::empty()
    } else {
        let prev = spec_head_headers(lines.drop_last());
        let l = lines.last();
        match find_sub(l, seq![58u8]) {
            None => prev,
            Some(c) => spec_set_multiple(
                prev,
                stored_name(trim_bytes(l.take(c))),
                trim_bytes(l.skip(c + 1)),
            ),
        }
    }
}

/// The header entries of a complete head block: its lines after the
/// request line, keeping at most `max_count` of them.
pub open spec fn spec_request_headers(head: Seq<u8>, max_count: int) -> Seq<HeaderEntry> {
    let ls = head_lines(head).skip(1);
    if ls.len() <= max_count {
        spec_head_headers(ls)
    } else {
        spec_head_headers(ls.take(max_count))
    }
}

proof fn lemma_head_headers_wf(lines: Seq<Seq<u8>>)
    ensures
        crate::headers::entries_wf(spec_head_headers(lines)),
    decreases lines.len(),
{
    if lines.len() > 0 {
        lemma_head_headers_wf(lines.drop_last());
        let prev = spec_head_headers(lines.drop_last());
        let l = lines.last();
        match find_sub(l, seq![58u8]) {
            None => {},
            Some(c) => {
                crate::response::lemma_spec_set_multiple_wf(
                    prev,
                    stored_name(trim_bytes(l.take(c))),
                    trim_bytes(l.skip(c + 1)),
                );
            },
        }
    }
}

/// Parses a complete head block: request line fields plus header lines,
/// keeping at most `max_header_count` header lines.
fn parse_head_fields(head: &[u8], max_header_count: usize) -> (r: RequestHeaderResult)
    ensures
        r.headers.wf(),
        r.headers@ == spec_request_headers(head@, max_header_count as int),
        r.method is Some <==> spec_head_method(head@) is Some,
        r.method is Some ==> r.method->Some_0@ == lossy_decoded(spec_head_method(head@)->Some_0),
        r.raw_path is Some <==> spec_head_target(head@) is Some,
        r.raw_path is Some ==> r.raw_path->Some_0@ == lossy_decoded(
            spec_head_target(head@)->Some_0,
        ),
        r.http_version == spec_head_version(head@),
{
    let mut crlf_v: Vec<u8> = Vec::new();
    crlf_v.push(13u8);
    crlf_v.push(10u8);
    assert(crlf_v@ =~= crlf_marker());
    let lines = split_bytes_window(head, crlf_v.as_slice());
    proof {
        lemma_split_bytes_len(head@, crlf_marker());
    }
    let ghost lv = head_lines(head@);
    assert(lines@.len() == lv.len());
    let mut space_v: Vec<u8> = Vec::new();
    space_v.push(32u8);
    assert(space_v@ =~= seq![32u8]);
    let tokens = split_bytes_window(lines[0].as_slice(), space_v.as_slice());
    assert(lines@[0]@ == lv[0]);
    let ghost tv = req_tokens(head@);
    assert(tokens@.len() == tv.len());

    let method: Option<String>;
    let raw_path: Option<String>;
    let mut http_version: Option<u8> = None;
    if tokens.len() == 3 {
        assert(tokens@[2]@ == tv[2]);
        let vtok = tokens[2].as_slice();
        if slice_eq(vtok, "HTTP/1.1".as_bytes()) {
            http_version = Some(1);
        } else if slice_eq(vtok, "HTTP/1.0".as_bytes()) {
            http_version = Some(0);
        }
    }
    if tokens.len() == 3 && tokens[0].len() > 0 && tokens[1].len() > 0 {
        assert(tokens@[0]@ == tv[0] && tokens@[1]@ == tv[1]);
        method = Some(lossy_string(tokens[0].as_slice()));
        raw_path = Some(lossy_string(tokens[1].as_slice()));
    } else {
        proof {
            if tokens@.len() == 3 {
                assert(tokens@[0]@ == tv[0] && tokens@[1]@ == tv[1]);
            }
        }
        method = None;
        raw_path = None;
    }

    let mut headers = Headers::new();
    let n: usize = lines.len();
    let mut i: usize = 1;
    proof {
        assert(lv.take(1).skip(1) =~= Seq::<Seq<u8>>::empty());
    }
    while i < n && i - 1 < max_header_count
        invariant
            1 <= i <= n,
            i - 1 <= max_header_count,
            n == lines@.len(),
            lines@.len() == lv.len(),
            forall|j: int| 0 <= j < lines@.len() ==> #[trigger] lines@[j]@ == lv[j],
            headers.wf(),
            headers@ == spec_head_headers(lv.take(i as int).skip(1)),
        decreases n - i,
    {
        let ghost prev = spec_head_headers(lv.take(i as int).skip(1));
        proof {
            assert(lv.take(i + 1).skip(1).drop_last() =~= lv.take(i as int).skip(1));
            assert(lv.take(i + 1).skip(1).last() == lv[i as int]);
        }
        let line = lines[i].as_slice();
        assert(line@ == lv[i as int]);
        let mut colon_v: Vec<u8> = Vec::new();
        colon_v.push(58u8);
        assert(colon_v@ =~= seq![58u8]);
        match find_window(line, colon_v.as_slice()) {
            None => {
                proof {
                    assert(spec_head_headers(lv.take(i + 1).skip(1)) == prev);
                }
            },
            Some(c) => {
                proof {
                    lemma_find_from_props(line@, seq![58u8], 0);
                    assert(match_at(line@, seq![58u8], c as int));
                }
                let llen: usize = line.len();
                assert(c + 1 <= llen);
                let nb = trim_slice(&line[0..c]);
                let vb = trim_slice(&line[c + 1..llen]);
                assert(nb@ == trim_bytes(lv[i as int].take(c as int)));
                assert(vb@ == trim_bytes(lv[i as int].skip(c + 1)));
                let ns = lossy_string(nb.as_slice());
                headers.set_multiple(ns.as_str(), vb.as_slice());
                proof {
                    assert(str_bytes(ns@) == stored_name(trim_bytes(lv[i as int].take(c as int))));
                }
            },
        }
        i += 1;
    }
    proof {
        let ls = lv.skip(1);
        assert(lv.take(i as int).skip(1) =~= ls.take(i - 1));
        if i == n {
            assert(ls.take(i - 1) =~= ls);
            assert(ls.len() == n - 1 <= max_header_count);
        } else {
            assert(i - 1 == max_header_count);
            assert(ls.len() == n - 1 > max_header_count);
        }
    }
    RequestHeaderResult { method, http_version, raw_path, headers }
}

/// Reads chunks until the stream has yielded a complete request head, and
/// pushes everything past the head terminator back for the body decoder.
///
/// The outcome is a function of the stream's remaining bytes and the
/// ceiling alone: a head whose terminator ends within the ceiling parses,
/// a longer one is `HeaderSizeExceed`, and a stream that runs out before
/// either is decided is a transport error.
pub fn read_request_headers<S: AbstractStream>(
    stream: &mut S,
    request_constraints: &RequestConstraints,
) -> (r: Result<RequestHeaderResult, RequestError>)
    requires
        old(stream).wf(),
    ensures
        final(stream).wf(),
        final(stream).chunk_size() == old(stream).chunk_size(),
        final(stream).written() == old(stream).written(),
        ({
            let c = old(stream).content();
            let maxh = if old(stream).chunk_size() > request_constraints.max_request_header_size {
                old(stream).chunk_size() as int
            } else {
                request_constraints.max_request_header_size as int
            };
            &&& (r is Ok <==> head_split_at(c) is Some && head_split_at(c)->Some_0 + 4 <= maxh)
            &&& (r matches Ok(res) ==> {
                let p = head_split_at(c)->Some_0;
                let head = c.take(p);
                &&& res.headers.wf()
                &&& res.headers@ == spec_request_headers(
                    head,
                    request_constraints.max_header_count as int,
                )
                &&& (res.method is Some <==> spec_head_method(head) is Some)
                &&& (res.method is Some ==> res.method->Some_0@ == lossy_decoded(
                    spec_head_method(head)->Some_0,
                ))
                &&& (res.raw_path is Some <==> spec_head_target(head) is Some)
                &&& (res.raw_path is Some ==> res.raw_path->Some_0@ == lossy_decoded(
                    spec_head_target(head)->Some_0,
                ))
                &&& res.http_version == spec_head_version(head)
                &&& final(stream).content() == c.skip(p + 4)
                &&& final(stream).pushback() == final(stream).content().take(
                    final(stream).pushback().len() as int,
                )
                &&& final(stream).pushback().len() <= final(stream).content().len()
            })
            &&& (r matches Err(e) ==> match e {
                RequestError::HeaderSizeExceed => match head_split_at(c) {
                    Some(p) => p + 4 > maxh,
                    None => c.len() >= maxh,
                },
                RequestError::Others(_) => head_split_at(c) is None && c.len() < maxh,
            })
        }),
{
    let ghost c = old(stream).content();
    let buffer_size = stream.buffer_size();
    let max_request_header_size = request_constraints.max_request_header_size(buffer_size);
    let ghost maxh = max_request_header_size as int;

    let mut buffer: Vec<u8> = Vec::new();
    proof {
        assert(buffer@ =~= c.take(0));
        assert(stream.content() =~= c.skip(0));
    }
    let mut term_v: Vec<u8> = Vec::new();
    term_v.push(13u8);
    term_v.push(10u8);
    term_v.push(13u8);
    term_v.push(10u8);
    assert(term_v@ =~= head_marker());
    loop
        invariant
            stream.wf(),
            stream.chunk_size() == old(stream).chunk_size(),
            stream.written() == old(stream).written(),
            c == old(stream).content(),
            maxh == max_request_header_size as int,
            maxh == if old(stream).chunk_size() > request_constraints.max_request_header_size {
                old(stream).chunk_size() as int
            } else {
                request_constraints.max_request_header_size as int
            },
            buffer@.len() <= c.len(),
            buffer@ == c.take(buffer@.len() as int),
            stream.content() == c.skip(buffer@.len() as int),
            buffer@.len() > 0 ==> stream.pushback().len() == 0,
            term_v@ == head_marker(),
        decreases c.len() - buffer@.len(),
    {
        let ghost blen = buffer@.len() as int;
        match find_window(buffer.as_slice(), term_v.as_slice()) {
            Some(p) => {
                proof {
                    lemma_find_take_some(c, blen, head_marker());
                    lemma_find_from_props(buffer@, head_marker(), 0);
                    assert(match_at(buffer@, head_marker(), p as int));
                    assert(p + 4 <= buffer@.len());
                }
                let blen_e: usize = buffer.len();
                assert(p + 4 <= blen_e);
                if p + 4 <= max_request_header_size {
                    let rest = &buffer.as_slice()[p + 4..blen_e];
                    assert(rest@ == buffer@.skip(p + 4));
                    let _restore_result = stream.restore_payload(rest);
                    proof {
                        assert(c.take(blen).skip(p + 4) + c.skip(blen) =~= c.skip(p + 4));
                    }
                    let head = &buffer.as_slice()[0..p];
                    proof {
                        assert(head@ == buffer@.take(p as int));
                        assert(c.take(blen).take(p as int) =~= c.take(p as int));
                    }
                    let res = parse_head_fields(head, request_constraints.max_header_count);
                    return Ok(res);
                } else {
                    return Err(RequestError::HeaderSizeExceed);
                }
            },
            None => {
                proof {
                    lemma_find_take_none(c, blen, head_marker());
                }
                if buffer.len() >= max_request_header_size {
                    proof {
                        if head_split_at(c) is Some {
                            lemma_find_from_props(c, head_marker(), 0);
                        }
                    }
                    return Err(RequestError::HeaderSizeExceed);
                }
                match stream.read_chunk() {
                    Ok(chunk) => {
                        let ghost ch = chunk@;
                        let mut chunk_m = chunk;
                        buffer.append(&mut chunk_m);
                        proof {
                            assert(buffer@ == c.take(blen) + ch);
                            assert(ch == c.skip(blen).take(ch.len() as int));
                            assert forall|k: int| 0 <= k < buffer@.len() implies buffer@[k] == c.take(
                                blen + ch.len(),
                            )[k] by {
                                if k < blen {
                                    assert(buffer@[k] == c.take(blen)[k]);
                                } else {
                                    assert(buffer@[k] == ch[k - blen]);
                                    assert(ch[k - blen] == c.skip(blen)[k - blen]);
                                }
                            }
                            assert(buffer@ =~= c.take(blen + ch.len()));
                        }
                    },
                    Err(e) => {
                        proof {
                            assert(c.take(blen) =~= c);
                        }
                        return Err(RequestError::Others(e.description()));
                    },
                }
            },
        }
    }
}

/// The path part of a request target: everything before the first `?`.
pub open spec fn spec_path_of(s: Seq<char>) -> Seq<char> {
    match char_find(s, '?') {
        None => s,
        Some(p) => s.take(p),
    }
}

/// The raw query of a request target: everything after the first `?`,
/// without the `?` itself.
pub open spec fn spec_query_of(s: Seq<char>) -> Seq<char> {
    match char_find(s, '?') {
        None => Seq::empty(),
        Some(p) => s.skip(p + 1),
    }
}

/// Splits a request target into path and raw query. The `?` itself
/// belongs to neither part.
pub fn path_and_raw_query(raw_path: &str) -> (r: (String, String))
    ensures
        r.0@ == spec_path_of(raw_path@),
        r.1@ == spec_query_of(raw_path@),
{
    let n: usize = raw_path.unicode_len();
    match char_find_str(raw_path, '?') {
        None => (String::from_str(raw_path), String::new()),
        Some(p) => {
            proof {
                crate::scan::lemma_char_find_props(raw_path@, '?', 0);
            }
            let path = raw_path.substring_char(0, p);
            let query = raw_path.substring_char(p + 1, n);
            assert(query@ == raw_path@.skip(p + 1)) by {
                assert(raw_path@.subrange(p + 1, raw_path@.len() as int) =~= raw_path@.skip(p + 1));
            }
            (String::from_str(path), String::from_str(query))
        },
    }
}

/// A percent-decoded string, or the raw text when decoding fails.
pub open spec fn dec_or_raw(x: Seq<char>) -> Seq<char> {
    match url_decoded(x) {
        Some(d) => d,
        None => x,
    }
}

/// The key/value pair of one `key=value` segment: the text before the
/// first `=` and the text between the first and second `=`. A segment
/// without `=` carries no pair.
pub open spec fn pair_of(seg: Seq<char>) -> Option<(Seq<char>, Seq<char>)> {
    match char_find(seg, '=') {
        None => None,
        Some(p) => {
            let key = seg.take(p);
            let rest = seg.skip(p + 1);
            let val = match char_find(rest, '=') {
                None => rest,
                Some(q) => rest.take(q),
            };
            Some((key, val))
        },
    }
}

/// Folds `key=value` segments into a field map, decoding both sides and
/// keeping repeated keys as ordered value lists.
pub open spec fn add_segments(
    v: Seq<(Seq<char>, Seq<Seq<char>>)>,
    segs: Seq<Seq<char>>,
) -> Seq<(Seq<char>, Seq<Seq<char>>)>
    decreases segs.len(),
{
    if segs.len() == 0 {
        v
    } else {
        let prev = add_segments(v, segs.drop_last());
        match pair_of(segs.last()) {
            None => prev,
            Some(kv) => spec_add_value(prev, dec_or_raw(kv.0), dec_or_raw(kv.1)),
        }
    }
}

/// The field map an urlencoded text decodes to.
pub open spec fn spec_parse_url_encoded(s: Seq<char>) -> Seq<(Seq<char>, Seq<Seq<char>>)> {
    if s.len() == 0 {
        Seq::empty()
    } else {
        add_segments(Seq::empty(), split_chars(s, '&'))
    }
}

proof fn lemma_add_segments_wf(v: Seq<(Seq<char>, Seq<Seq<char>>)>, segs: Seq<Seq<char>>)
    requires
        forall|i: int| 0 <= i < v.len() ==> #[trigger] v[i].1.len() > 0,
    ensures
        forall|i: int|
            0 <= i < add_segments(v, segs).len() ==> #[trigger] add_segments(v, segs)[i].1.len()
                > 0,
    decreases segs.len(),
{
    if segs.len() > 0 {
        lemma_add_segments_wf(v, segs.drop_last());
        let prev = add_segments(v, segs.drop_last());
        match pair_of(segs.last()) {
            None => {},
            Some(kv) => {
                let name = dec_or_raw(kv.0);
                let target = spec_add_value(prev, name, dec_or_raw(kv.1));
                crate::shortcuts::lemma_named_idx_props(prev, str_bytes(name), false, 0);
                assert forall|i: int| 0 <= i < target.len() implies #[trigger] target[i].1.len()
                    > 0 by {
                    match crate::shortcuts::named_idx(prev, str_bytes(name), false) {
                        Some(k) => {
                            if i != k {
                                assert(target[i] == prev[i]);
                            }
                        },
                        None => {
                            if i < prev.len() {
                                assert(target[i] == prev[i]);
                            }
                        },
                    }
                }
            },
        }
    }
}

/// Decodes an urlencoded text: `&`-separated `key=value` pairs, both
/// sides percent-decoded with the raw text kept when decoding fails, and
/// repeated keys accumulated into ordered value lists.
pub fn parse_url_encoded(text: &str) -> (r: FormData)
    ensures
        r@ == spec_parse_url_encoded(text@),
        r.wf(),
{
    let mut fd = FormData::new();
    if text.is_empty() {
        return fd;
    }
    let segs = split_chars_str(text, '&');
    let ghost sv = split_chars(text@, '&');
    let n: usize = segs.len();
    let mut i: usize = 0;
    proof {
        assert(add_segments(Seq::empty(), sv.take(0)) =~= Seq::<(Seq<char>, Seq<Seq<char>>)>::empty());
    }
    while i < n
        invariant
            0 <= i <= n,
            n == segs@.len(),
            sv == split_chars(text@, '&'),
            segs@.len() == sv.len(),
            forall|j: int| 0 <= j < segs@.len() ==> #[trigger] segs@[j]@ == sv[j],
            fd.wf(),
            fd@ == add_segments(Seq::empty(), sv.take(i as int)),
        decreases n - i,
    {
        proof {
            assert(sv.take(i + 1).drop_last() =~= sv.take(i as int));
            assert(sv.take(i + 1).last() == sv[i as int]);
        }
        let seg = &segs[i];
        assert(seg@ == sv[i as int]);
        let slen: usize = seg.as_str().unicode_len();
        match char_find_str(seg.as_str(), '=') {
            None => {
                proof {
                    assert(add_segments(Seq::empty(), sv.take(i + 1)) == fd@);
                }
            },
            Some(p) => {
                proof {
                    crate::scan::lemma_char_find_props(seg@, '=', 0);
                }
                let key_raw = seg.as_str().substring_char(0, p);
                let rest = seg.as_str().substring_char(p + 1, slen);
                assert(rest@ == seg@.skip(p + 1)) by {
                    assert(seg@.subrange(p + 1, seg@.len() as int) =~= seg@.skip(p + 1));
                }
                let rlen: usize = rest.unicode_len();
                let val_raw = match char_find_str(rest, '=') {
                    None => String::from_str(rest),
                    Some(q) => {
                        proof {
                            crate::scan::lemma_char_find_props(rest@, '=', 0);
                        }
                        String::from_str(rest.substring_char(0, q))
                    },
                };
                let key = match url_decode(key_raw) {
                    Some(d) => d,
                    None => String::from_str(key_raw),
                };
                let value = match url_decode(val_raw.as_str()) {
                    Some(d) => d,
                    None => val_raw,
                };
                assert(key@ == dec_or_raw(pair_of(sv[i as int])->Some_0.0));
                assert(value@ == dec_or_raw(pair_of(sv[i as int])->Some_0.1));
                fd.add_value(key.as_str(), value);
            },
        }
        i += 1;
    }
    proof {
        assert(sv.take(n as int) =~= sv);
    }
    fd
}

/// The query parameters of a request target: its raw query, urldecoded.
pub fn query_params_from_raw(raw_path: &str) -> (r: FormData)
    ensures
        r@ == spec_parse_url_encoded(spec_query_of(raw_path@)),
        r.wf(),
{
    let pq = path_and_raw_query(raw_path);
    parse_url_encoded(pq.1.as_str())
}

/// Which decoder a request body takes, read off the `Content-Type`
/// header as the connection handler decides it.
#[derive(Clone, Copy, Debug, PartialEq, Eq, Structural)]
pub enum BodyKind {
    /// `multipart/form-data`: the multipart decoder.
    Multipart,
    /// `application/x-www-form-urlencoded`: the urlencoded decoder.
    UrlEncoded,
    /// Anything else, or no content type: the body is left unread.
    Unhandled,
}

/// The decoder the headers select: the first `Content-Type` value,
/// lowercased, decides by its prefix.
pub open spec fn spec_body_kind(hv: Seq<HeaderEntry>) -> BodyKind {
    match crate::headers::header_lookup(hv, str_bytes("Content-Type"@)) {
        None => BodyKind::Unhandled,
        Some(i) => {
            let ct = crate::scan::lower_bytes(str_bytes(lossy_decoded(hv[i].1[0])));
            if crate::scan::is_prefix_of(
                crate::scan::lower_bytes(str_bytes("multipart/form-data"@)),
                ct,
            ) {
                BodyKind::Multipart
            } else if crate::scan::is_prefix_of(
                crate::scan::lower_bytes(str_bytes("application/x-www-form-urlencoded"@)),
                ct,
            ) {
                BodyKind::UrlEncoded
            } else {
                BodyKind::Unhandled
            }
        },
    }
}

/// Picks the body decoder for a request, as the connection handler does.
pub fn body_kind_of(headers: &crate::headers::Headers) -> (r: BodyKind)
    requires
        headers.wf(),
    ensures
        r == spec_body_kind(headers@),
{
    let ct = match headers.value("Content-Type") {
        Some(v) => v,
        None => {
            return BodyKind::Unhandled;
        },
    };
    let ct_lower = lower_vec_bytes(ct.as_str().as_bytes());
    let mp = lower_vec_bytes("multipart/form-data".as_bytes());
    let ue = lower_vec_bytes("application/x-www-form-urlencoded".as_bytes());
    if crate::scan::slice_starts_with(ct_lower.as_slice(), mp.as_slice()) {
        BodyKind::Multipart
    } else if crate::scan::slice_starts_with(ct_lower.as_slice(), ue.as_slice()) {
        BodyKind::UrlEncoded
    } else {
        BodyKind::Unhandled
    }
}

/// ASCII-lowercases a byte slice.
fn lower_vec_bytes(s: &[u8]) -> (r: Vec<u8>)
    ensures
        r@ == crate::scan::lower_bytes(s@),
{
    let n: usize = s.len();
    let mut r: Vec<u8> = Vec::new();
    let mut i: usize = 0;
    while i < n
        invariant
            0 <= i <= n,
            n == s@.len(),
            r@.len() == i,
            forall|j: int| 0 <= j < i ==> #[trigger] r@[j] == crate::scan::lower_byte(s@[j]),
        decreases n - i,
    {
        let b = s[i];
        if 65 <= b && b <= 90 {
            r.push(b + 32);
        } else {
            r.push(b);
        }
        i += 1;
    }
    proof {
        assert(r@ =~= crate::scan::lower_bytes(s@));
    }
    r
}

/// Decodes a request body by its declared kind, as the connection
/// handler does: multipart and urlencoded bodies go through their
/// decoders, anything else is left unread and succeeds with empty maps.
/// The stream comes back beside the result.
pub fn parse_body<S: AbstractStream>(
    stream: S,
    head: &RequestHeaderResult,
    form_constraints: &crate::forms::FormConstraints,
) -> (r: (
    Result<(crate::forms::FormData, crate::forms::Files), crate::forms::FormFieldError>,
    S,
))
    requires
        stream.wf(),
        head.headers.wf(),
    ensures
        r.1.wf(),
        r.1.chunk_size() == stream.chunk_size(),
        r.1.written() == stream.written(),
        spec_body_kind(head.headers@) is Unhandled ==> (r.0 matches Ok(pair) && pair.0@
            == Seq::<(Seq<char>, Seq<Seq<char>>)>::empty() && pair.1@ == Seq::<
            (Seq<char>, Seq<(Seq<char>, Seq<u8>)>),
        >::empty() && r.1 == stream),
        spec_body_kind(head.headers@) is Multipart ==> ({
            &&& (crate::multipart::mp_boundary_of(head.headers@) is None ==> (r.0 matches Err(
                crate::forms::FormFieldError::Others(f, _, _),
            ) && f is None))
            &&& (crate::multipart::mp_boundary_of(head.headers@) matches Some(b) ==> ({
                let out = crate::multipart::mp_run(
                    Seq::empty(),
                    Seq::empty(),
                    stream.content(),
                    b,
                    true,
                    *form_constraints,
                    stream.chunk_size(),
                );
                &&& (r.0 is Ok <==> out is Complete)
                &&& (r.0 matches Ok(pair) ==> out matches crate::multipart::MpFinal::Complete {
                    fields,
                    files,
                } && pair.0@ == fields && pair.1@ == files && pair.0.wf() && pair.1.wf())
                &&& (r.0 matches Err(e) ==> match e {
                    crate::forms::FormFieldError::MaxHeaderSizeExceed => out is HeaderTooBig,
                    crate::forms::FormFieldError::MaxValueSizeExceed(n) => out matches crate::multipart::MpFinal::ValueTooBig(
                        nm,
                    ) && n@ == lossy_decoded(nm),
                    crate::forms::FormFieldError::MaxFileSizeExceed(n) => out matches crate::multipart::MpFinal::FileTooBig(
                        nm,
                    ) && n@ == lossy_decoded(nm),
                    crate::forms::FormFieldError::MaxBodySizeExceed => false,
                    crate::forms::FormFieldError::Others(f, _, _) => f is None && (
                    out is Malformed || out is Incomplete),
                })
            }))
        }),
        spec_body_kind(head.headers@) is UrlEncoded ==> ({
            let c = stream.content();
            let cl = crate::urlencoded::spec_content_length(head.headers@);
            let maxb = if stream.chunk_size() > form_constraints.cfg_body() {
                stream.chunk_size() as int
            } else {
                form_constraints.cfg_body() as int
            };
            &&& (cl is None ==> (r.0 matches Err(crate::forms::FormFieldError::Others(f, _, _))
                && f is None) && r.1 == stream)
            &&& (cl matches Some(n) ==> {
                &&& (r.0 matches Err(crate::forms::FormFieldError::MaxBodySizeExceed) <==> n
                    > maxb)
                &&& (r.0 matches Err(crate::forms::FormFieldError::MaxBodySizeExceed) ==> r.1
                    == stream)
                &&& (r.0 is Ok <==> n <= maxb && c.len() >= n)
                &&& (r.0 matches Ok(pair) ==> pair.0@ == spec_parse_url_encoded(
                    lossy_decoded(c.take(n)),
                ) && pair.0.wf() && pair.1@ == Seq::<
                    (Seq<char>, Seq<(Seq<char>, Seq<u8>)>),
                >::empty())
            })
        }),
{
    match body_kind_of(&head.headers) {
        BodyKind::Multipart => crate::multipart::MultipartParser::parse(
            stream,
            form_constraints,
            &head.headers,
        ),
        BodyKind::UrlEncoded => {
            let (result, stream) = crate::urlencoded::UrlEncodedParser::parse(
                stream,
                &head.headers,
                form_constraints,
            );
            let mapped = match result {
                Ok(form_data) => {
                    let files = crate::forms::Files::new();
                    proof {
                        assert(files@ =~= Seq::<(Seq<char>, Seq<(Seq<char>, Seq<u8>)>)>::empty());
                    }
                    Ok((form_data, files))
                },
                Err(e) => Err(e),
            };
            (mapped, stream)
        },
        BodyKind::Unhandled => {
            let form_data = crate::forms::FormData::new();
            let files = crate::forms::Files::new();
            proof {
                assert(form_data@ =~= Seq::<(Seq<char>, Seq<Seq<char>>)>::empty());
                assert(files@ =~= Seq::<(Seq<char>, Seq<(Seq<char>, Seq<u8>)>)>::empty());
            }
            (Ok((form_data, files)), stream)
        },
    }
}

} // verus!
