//! Multipart/form-data decoder: a stateful scanner that extracts form
//! parts (headers, then a text value or a file payload) directly from the
//! byte stream, enforcing independent size ceilings per field, file and
//! part header.
//!
//! Every outcome and every extracted byte is a function of the stream's
//! bytes, the boundary token and the configured ceilings alone, never of
//! how the bytes were chunked.

use vstd::prelude::*;
use vstd::string::*;
use crate::forms::{FormConstraints, FormData, FormFieldError, Files, FileField, spec_add_value,
    spec_add_file};
use crate::headers::{Headers, str_bytes};
use crate::parser::head_marker;
use crate::parser::crlf_marker;
use crate::scan::{find_sub, find_from, find_window, lemma_find_from_props, lemma_find_from_exact,
    lemma_find_take_some, lemma_find_take_none, match_at, split_bytes, split_bytes_window,
    trim_bytes, trim_slice, slice_eq, slice_starts_with, is_prefix_of, eq_ignore_ascii,
    lower_bytes};
use crate::stream::AbstractStream;
use crate::textenc::{lossy_decoded, lossy_string};

verus! {

/// One decoded form part, as the scanner hands it upward: the
/// `Content-Disposition` attributes, and exactly one of a text value or
/// a file payload once the body phase has run.
pub struct FormPart {
    pub name: Option<String>,
    pub value: Option<String>,
    pub filename: Option<String>,
    pub content_type: Option<String>,
    pub file: Option<Vec<u8>>,
}

/// What a part's header block said: the `Content-Disposition` name and
/// filename attributes, the part's content type, and whether a
/// disposition line was unusable.
pub struct MpHeaderState {
    pub name: Option<Seq<u8>>,
    pub filename: Option<Seq<u8>>,
    pub content_type: Option<Seq<u8>>,
    pub failed: bool,
}

/// An ASCII word character, as attribute names are made of.
pub open spec fn is_word(b: u8) -> bool {
    (48 <= b <= 57) || (65 <= b <= 90) || (97 <= b <= 122) || b == 95
}

/// An attribute assignment begins at `e`: a word character, then `="`.
pub open spec fn eq_quote_at(t: Seq<u8>, e: int) -> bool {
    1 <= e && e + 1 < t.len() && t[e] == 61 && t[e + 1] == 34 && is_word(t[e - 1])
}

/// First attribute assignment at or after `i`.
pub open spec fn find_eq_quote(t: Seq<u8>, i: int) -> Option<int>
    decreases t.len() + 1 - i,
{
    if i < 1 || i + 1 >= t.len() {
        None
    } else if eq_quote_at(t, i) {
        Some(i)
    } else {
        find_eq_quote(t, i + 1)
    }
}

pub proof fn lemma_find_eq_quote_props(t: Seq<u8>, i: int)
    requires
        1 <= i,
    ensures
        match find_eq_quote(t, i) {
            Some(e) => i <= e && eq_quote_at(t, e) && (forall|j: int|
                i <= j < e ==> !eq_quote_at(t, j)),
            None => forall|j: int| j >= i ==> !eq_quote_at(t, j),
        },
    decreases t.len() + 1 - i,
{
    if i + 1 >= t.len() {
    } else if !eq_quote_at(t, i) {
        lemma_find_eq_quote_props(t, i + 1);
    }
}

pub proof fn lemma_find_eq_quote_exact(t: Seq<u8>, i: int, e: int)
    requires
        1 <= i <= e,
        eq_quote_at(t, e),
        forall|j: int| i <= j < e ==> !eq_quote_at(t, j),
    ensures
        find_eq_quote(t, i) == Some(e),
    decreases e - i,
{
    if i < e {
        lemma_find_eq_quote_exact(t, i + 1, e);
    }
}

/// Start of the word run that ends just before `i`.
pub open spec fn run_start(t: Seq<u8>, i: int) -> int
    decreases i,
{
    if 0 < i <= t.len() && is_word(t[i - 1]) {
        run_start(t, i - 1)
    } else {
        i
    }
}

/// The `key="value"` attributes of a disposition parameter text, in
/// order: each attribute is a word run, `="`, then everything up to the
/// next quote.
pub open spec fn attrs_scan(t: Seq<u8>) -> Seq<(Seq<u8>, Seq<u8>)>
    decreases t.len(),
{
    match find_eq_quote(t, 1) {
        None => Seq::empty(),
        Some(e) => match find_from(t, seq![34u8], e + 2) {
            None => Seq::empty(),
            Some(q) => if 1 <= e && e + 2 <= q < t.len() {
                seq![(t.subrange(run_start(t, e), e), t.subrange(e + 2, q))] + attrs_scan(
                    t.skip(q + 1),
                )
            } else {
                Seq::empty()
            },
        },
    }
}

/// The value of the last attribute named `key`, if any.
pub open spec fn last_attr(attrs: Seq<(Seq<u8>, Seq<u8>)>, key: Seq<u8>) -> Option<Seq<u8>>
    decreases attrs.len(),
{
    if attrs.len() == 0 {
        None
    } else if attrs.last().0 == key {
        Some(attrs.last().1)
    } else {
        last_attr(attrs.drop_last(), key)
    }
}

/// The bytes of `form-data;`, which a disposition value must begin with.
pub open spec fn form_data_marker() -> Seq<u8> {
    seq![102u8, 111u8, 114u8, 109u8, 45u8, 100u8, 97u8, 116u8, 97u8, 59u8]
}

/// Applies one `Content-Disposition` value to the header state: the
/// trimmed value must begin `form-data;`, and its `name` and `filename`
/// attributes override ones seen earlier; a value that leaves the part
/// without a name is fatal.
pub open spec fn cd_apply(st: MpHeaderState, hv: Seq<u8>) -> MpHeaderState {
    let t = trim_bytes(hv);
    if !is_prefix_of(form_data_marker(), t) {
        MpHeaderState { failed: true, ..st }
    } else {
        let rem = trim_bytes(t.skip(form_data_marker().len() as int));
        let attrs = attrs_scan(rem);
        let nm = match last_attr(attrs, str_bytes("name"@)) {
            Some(v) => Some(v),
            None => st.name,
        };
        let fnm = match last_attr(attrs, str_bytes("filename"@)) {
            Some(v) => Some(v),
            None => st.filename,
        };
        if nm is None {
            MpHeaderState { failed: true, ..st }
        } else {
            MpHeaderState { name: nm, filename: fnm, content_type: st.content_type, failed: false }
        }
    }
}

/// Applies one header line: split at the first `:`; a
/// `Content-Disposition` line carries the part's attributes, a
/// `Content-Type` line its content type, and anything else is ignored.
pub open spec fn line_apply(st: MpHeaderState, l: Seq<u8>) -> MpHeaderState {
    match find_sub(l, seq![58u8]) {
        None => st,
        Some(c) => {
            let hn = trim_bytes(l.take(c));
            let hv = l.skip(c + 1);
            if lower_bytes(hn) == lower_bytes(str_bytes("content-disposition"@)) {
                cd_apply(st, hv)
            } else if lower_bytes(hn) == lower_bytes(str_bytes("content-type"@)) {
                MpHeaderState { content_type: Some(trim_bytes(hv)), ..st }
            } else {
                st
            }
        },
    }
}

/// Folds a part's header lines in order; a fatal line stops the fold.
pub open spec fn header_fold(lines: Seq<Seq<u8>>) -> MpHeaderState
    decreases lines.len(),
{
    if lines.len() == 0 {
        MpHeaderState { name: None, filename: None, content_type: None, failed: false }
    } else {
        let st = header_fold(lines.drop_last());
        if st.failed {
            st
        } else {
            line_apply(st, lines.last())
        }
    }
}

/// What a part's header block (the bytes before its `\r\n\r\n`) says.
pub open spec fn part_header_of(h: Seq<u8>) -> MpHeaderState {
    header_fold(split_bytes(h, crlf_marker()))
}

/// Finds the start of the word run before `e`.
fn run_start_window(t: &[u8], e: usize) -> (r: usize)
    requires
        e <= t@.len(),
    ensures
        r == run_start(t@, e as int),
        r <= e,
{
    let mut i: usize = e;
    loop
        invariant
            0 <= i <= e <= t@.len(),
            run_start(t@, e as int) == run_start(t@, i as int),
        decreases i,
    {
        if i == 0 {
            return i;
        }
        let b = t[i - 1];
        if !((48 <= b && b <= 57) || (65 <= b && b <= 90) || (97 <= b && b <= 122) || b == 95) {
            return i;
        }
        i -= 1;
    }
}

/// Finds the first attribute assignment of a parameter text.
fn find_eq_quote_window(t: &[u8]) -> (r: Option<usize>)
    ensures
        match r {
            Some(e) => find_eq_quote(t@, 1) == Some(e as int),
            None => find_eq_quote(t@, 1) is None,
        },
{
    let n: usize = t.len();
    if n < 2 {
        proof {
            lemma_find_eq_quote_props(t@, 1);
            if find_eq_quote(t@, 1) is Some {
                let ee = find_eq_quote(t@, 1)->Some_0;
                assert(eq_quote_at(t@, ee));
            }
        }
        return None;
    }
    let mut e: usize = 1;
    while e + 1 < n
        invariant
            1 <= e <= n - 1,
            2 <= n == t@.len(),
            forall|j: int| 1 <= j < e ==> !eq_quote_at(t@, j),
        decreases n - e,
    {
        let b = t[e - 1];
        if t[e] == 61 && t[e + 1] == 34 && ((48 <= b && b <= 57) || (65 <= b && b <= 90) || (97
            <= b && b <= 122) || b == 95) {
            proof {
                lemma_find_eq_quote_exact(t@, 1, e as int);
            }
            return Some(e);
        }
        assert(!eq_quote_at(t@, e as int));
        e += 1;
    }
    proof {
        assert forall|j: int| j >= 1 implies !eq_quote_at(t@, j) by {
            if j + 1 < t@.len() {
                assert(j < e);
            }
        }
        lemma_find_eq_quote_props(t@, 1);
        if find_eq_quote(t@, 1) is Some {
            let ee = find_eq_quote(t@, 1)->Some_0;
            assert(eq_quote_at(t@, ee));
        }
    }
    None
}

/// Scans the attribute assignments of a disposition parameter text.
fn attrs_scan_window(t: &[u8]) -> (r: Vec<(Vec<u8>, Vec<u8>)>)
    ensures
        r@.len() == attrs_scan(t@).len(),
        forall|i: int|
            0 <= i < r@.len() ==> (#[trigger] r@[i].0@, r@[i].1@) == attrs_scan(t@)[i],
    decreases t@.len(),
{
    let n: usize = t.len();
    match find_eq_quote_window(t) {
        None => Vec::new(),
        Some(ep) => {
            proof {
                lemma_find_eq_quote_props(t@, 1);
                assert(eq_quote_at(t@, ep as int));
                assert(ep + 2 <= t@.len());
            }
            let mut quote: Vec<u8> = Vec::new();
            quote.push(34u8);
            assert(quote@ =~= seq![34u8]);
            let tail_for_quote = &t[ep + 2..n];
            assert(tail_for_quote@ == t@.skip(ep + 2));
            match find_window(tail_for_quote, quote.as_slice()) {
                None => {
                    proof {
                        lemma_find_from_props(tail_for_quote@, seq![34u8], 0);
                        lemma_find_from_props(t@, seq![34u8], ep + 2);
                        if find_from(t@, seq![34u8], ep + 2) is Some {
                            let q = find_from(t@, seq![34u8], ep + 2)->Some_0;
                            assert(match_at(t@, seq![34u8], q));
                            assert(t@.skip(ep + 2)[q - ep - 2] == t@[q]);
                            assert(match_at(t@.skip(ep + 2), seq![34u8], q - ep - 2));
                        }
                    }
                    Vec::new()
                },
                Some(qrel) => {
                    proof {
                        lemma_find_from_props(tail_for_quote@, seq![34u8], 0);
                        assert(match_at(t@.skip(ep + 2), seq![34u8], qrel as int));
                        assert(qrel + 1 <= t@.len() - ep - 2);
                    }
                    let q: usize = ep + 2 + qrel;
                    proof {
                        assert(t@[q as int] == t@.skip(ep + 2)[qrel as int]);
                        assert(match_at(t@, seq![34u8], q as int));
                        assert forall|j: int| ep + 2 <= j < q implies !match_at(
                            t@,
                            seq![34u8],
                            j,
                        ) by {
                            assert(t@.skip(ep + 2)[j - ep - 2] == t@[j]);
                            if t@[j] == 34 {
                                assert(match_at(t@.skip(ep + 2), seq![34u8], j - ep - 2));
                            }
                        }
                        lemma_find_from_exact(t@, seq![34u8], ep + 2, q as int);
                    }
                    let rs = run_start_window(t, ep);
                    let name = vstd::slice::slice_to_vec(&t[rs..ep]);
                    let value = vstd::slice::slice_to_vec(&t[ep + 2..q]);
                    assert(name@ == t@.subrange(run_start(t@, ep as int), ep as int));
                    assert(value@ == t@.subrange(ep as int + 2, q as int));
                    let tail = &t[q + 1..n];
                    assert(tail@ == t@.skip(q + 1));
                    let rest = attrs_scan_window(tail);
                    let mut r: Vec<(Vec<u8>, Vec<u8>)> = Vec::new();
                    r.push((name, value));
                    let mut rest_m = rest;
                    r.append(&mut rest_m);
                    proof {
                        let sp = attrs_scan(t@);
                        assert(sp == seq![
                            (t@.subrange(run_start(t@, ep as int), ep as int), t@.subrange(
                                ep as int + 2,
                                q as int,
                            )),
                        ] + attrs_scan(t@.skip(q + 1)));
                        assert forall|i: int| 0 <= i < r@.len() implies (#[trigger] r@[i].0@,
                        r@[i].1@) == sp[i] by {
                            if i > 0 {
                                assert((r@[i].0@, r@[i].1@) == (rest@[i - 1].0@, rest@[i - 1].1@));
                                assert(sp[i] == attrs_scan(t@.skip(q + 1))[i - 1]);
                            }
                        }
                    }
                    r
                },
            }
        },
    }
}

/// Looks up the last attribute with the given key.
fn last_attr_window(attrs: &Vec<(Vec<u8>, Vec<u8>)>, key: &[u8]) -> (r: Option<Vec<u8>>)
    ensures
        ({
            let av = Seq::new(attrs@.len(), |i: int| (attrs@[i].0@, attrs@[i].1@));
            &&& (r is Some <==> last_attr(av, key@) is Some)
            &&& (r matches Some(v) ==> v@ == last_attr(av, key@)->Some_0)
        }),
{
    let ghost av = Seq::new(attrs@.len(), |i: int| (attrs@[i].0@, attrs@[i].1@));
    let n: usize = attrs.len();
    let mut i: usize = n;
    proof {
        assert(av.take(n as int) =~= av);
    }
    while i > 0
        invariant
            0 <= i <= n,
            n == attrs@.len(),
            av == Seq::new(attrs@.len(), |k: int| (attrs@[k].0@, attrs@[k].1@)),
            last_attr(av, key@) == last_attr(av.take(i as int), key@),
        decreases i,
    {
        proof {
            assert(av.take(i as int).drop_last() =~= av.take(i - 1));
            assert(av.take(i as int).last() == av[i - 1]);
        }
        if slice_eq(attrs[i - 1].0.as_slice(), key) {
            assert(av[i - 1].0 == key@);
            return Some(vstd::slice::slice_to_vec(attrs[i - 1].1.as_slice()));
        }
        assert(av[i - 1].0 != key@);
        i -= 1;
    }
    proof {
        assert(av.take(0) =~= Seq::<(Seq<u8>, Seq<u8>)>::empty());
    }
    None
}

proof fn lemma_header_fold_failed(lines: Seq<Seq<u8>>, i: int)
    requires
        0 <= i <= lines.len(),
        header_fold(lines.take(i)).failed,
    ensures
        header_fold(lines).failed,
    decreases lines.len() - i,
{
    if i < lines.len() {
        assert(lines.take(i + 1).drop_last() =~= lines.take(i));
        lemma_header_fold_failed(lines, i + 1);
    } else {
        assert(lines.take(i) =~= lines);
    }
}

/// Parses one part's header block: its `Content-Disposition` attributes
/// and content type. A disposition line that is not `form-data` or that
/// leaves the part without a name is a fatal parse error.
pub fn parse_form_part_header(header_bytes: &[u8]) -> (r: Result<FormPart, FormFieldError>)
    ensures
        ({
            let st = part_header_of(header_bytes@);
            &&& (r is Ok <==> !st.failed)
            &&& (r matches Ok(fp) ==> {
                &&& (fp.name is Some <==> st.name is Some)
                &&& (fp.name is Some ==> fp.name->Some_0@ == lossy_decoded(st.name->Some_0))
                &&& (fp.filename is Some <==> st.filename is Some)
                &&& (fp.filename is Some ==> fp.filename->Some_0@ == lossy_decoded(
                    st.filename->Some_0,
                ))
                &&& (fp.content_type is Some <==> st.content_type is Some)
                &&& (fp.content_type is Some ==> fp.content_type->Some_0@ == lossy_decoded(
                    st.content_type->Some_0,
                ))
                &&& fp.value is None
                &&& fp.file is None
            })
            &&& (r matches Err(e) ==> (e matches FormFieldError::Others(f, _, _) && f is None))
        }),
{
    let mut crlf_v: Vec<u8> = Vec::new();
    crlf_v.push(13u8);
    crlf_v.push(10u8);
    assert(crlf_v@ =~= crlf_marker());
    let lines = split_bytes_window(header_bytes, crlf_v.as_slice());
    let ghost lv = split_bytes(header_bytes@, crlf_marker());

    let mut name_b: Option<Vec<u8>> = None;
    let mut filename_b: Option<Vec<u8>> = None;
    let mut ct_b: Option<Vec<u8>> = None;

    let n: usize = lines.len();
    let mut i: usize = 0;
    proof {
        assert(lv.take(0) =~= Seq::<Seq<u8>>::empty());
    }
    while i < n
        invariant
            0 <= i <= n,
            n == lines@.len(),
            lv == split_bytes(header_bytes@, crlf_marker()),
            lines@.len() == lv.len(),
            forall|j: int| 0 <= j < lines@.len() ==> #[trigger] lines@[j]@ == lv[j],
            ({
                let st = header_fold(lv.take(i as int));
                &&& !st.failed
                &&& (name_b is Some <==> st.name is Some)
                &&& (name_b is Some ==> name_b->Some_0@ == st.name->Some_0)
                &&& (filename_b is Some <==> st.filename is Some)
                &&& (filename_b is Some ==> filename_b->Some_0@ == st.filename->Some_0)
                &&& (ct_b is Some <==> st.content_type is Some)
                &&& (ct_b is Some ==> ct_b->Some_0@ == st.content_type->Some_0)
            }),
        decreases n - i,
    {
        let ghost st_pre = header_fold(lv.take(i as int));
        proof {
            assert(lv.take(i + 1).drop_last() =~= lv.take(i as int));
            assert(lv.take(i + 1).last() == lv[i as int]);
        }
        let line = lines[i].as_slice();
        assert(line@ == lv[i as int]);
        let mut colon_v: Vec<u8> = Vec::new();
        colon_v.push(58u8);
        assert(colon_v@ =~= seq![58u8]);
        match find_window(line, colon_v.as_slice()) {
            None => {},
            Some(c) => {
                proof {
                    lemma_find_from_props(line@, seq![58u8], 0);
                    assert(match_at(line@, seq![58u8], c as int));
                }
                let llen: usize = line.len();
                assert(c + 1 <= llen);
                let hn = trim_slice(&line[0..c]);
                let hv = &line[c + 1..llen];
                assert(hn@ == trim_bytes(lv[i as int].take(c as int)));
                assert(hv@ == lv[i as int].skip(c + 1));
                if eq_ignore_ascii(hn.as_slice(), "content-disposition".as_bytes()) {
                    // the disposition value: must begin form-data;
                    let t = trim_slice(hv);
                    let mut fd_v: Vec<u8> = Vec::new();
                    fd_v.push(102u8);
                    fd_v.push(111u8);
                    fd_v.push(114u8);
                    fd_v.push(109u8);
                    fd_v.push(45u8);
                    fd_v.push(100u8);
                    fd_v.push(97u8);
                    fd_v.push(116u8);
                    fd_v.push(97u8);
                    fd_v.push(59u8);
                    assert(fd_v@ =~= form_data_marker());
                    if !slice_starts_with(t.as_slice(), fd_v.as_slice()) {
                        proof {
                            assert(header_fold(lv.take(i + 1)).failed);
                            lemma_header_fold_failed(lv, i + 1);
                        }
                        return Err(
                            FormFieldError::Others(
                                None,
                                String::from_str(
                                    "Not a valid Content-Disposition value for form part header",
                                ),
                                true,
                            ),
                        );
                    }
                    let tlen: usize = t.len();
                    let fdlen: usize = fd_v.len();
                    let rem = trim_slice(&t.as_slice()[fdlen..tlen]);
                    assert(rem@ == trim_bytes(trim_bytes(hv@).skip(form_data_marker().len() as int)));
                    let attrs = attrs_scan_window(rem.as_slice());
                    proof {
                        let av = Seq::new(attrs@.len(), |k: int| (attrs@[k].0@, attrs@[k].1@));
                        assert(av =~= attrs_scan(rem@));
                    }
                    let nm = last_attr_window(&attrs, "name".as_bytes());
                    let fnm = last_attr_window(&attrs, "filename".as_bytes());
                    match nm {
                        Some(v) => {
                            name_b = Some(v);
                        },
                        None => {},
                    }
                    match fnm {
                        Some(v) => {
                            filename_b = Some(v);
                        },
                        None => {},
                    }
                    if name_b.is_none() {
                        proof {
                            assert(header_fold(lv.take(i + 1)).failed);
                            lemma_header_fold_failed(lv, i + 1);
                        }
                        return Err(
                            FormFieldError::Others(
                                None,
                                String::from_str("Field name is missing in form part header."),
                                true,
                            ),
                        );
                    }
                    proof {
                        let st_post = header_fold(lv.take(i + 1));
                        assert(st_post == line_apply(st_pre, lv[i as int]));
                        assert(!st_post.failed);
                    }
                } else if eq_ignore_ascii(hn.as_slice(), "content-type".as_bytes()) {
                    ct_b = Some(trim_slice(hv));
                }
            },
        }
        i += 1;
    }
    proof {
        assert(lv.take(n as int) =~= lv);
    }
    let name = match name_b {
        Some(v) => Some(lossy_string(v.as_slice())),
        None => None,
    };
    let filename = match filename_b {
        Some(v) => Some(lossy_string(v.as_slice())),
        None => None,
    };
    let content_type = match ct_b {
        Some(v) => Some(lossy_string(v.as_slice())),
        None => None,
    };
    Ok(FormPart { name, value: None, filename, content_type, file: None })
}

/// The delimiter line the body must begin with: `--boundary\r\n`.
pub open spec fn sbound(b: Seq<u8>) -> Seq<u8> {
    seq![45u8, 45u8] + b + crlf_marker()
}

/// The terminator a part body is scanned for: `\r\n--boundary`.
pub open spec fn body_term(b: Seq<u8>) -> Seq<u8> {
    crlf_marker() + seq![45u8, 45u8] + b
}

/// The four bytes `--\r\n` that close the final part.
pub open spec fn endmark() -> Seq<u8> {
    seq![45u8, 45u8, 13u8, 10u8]
}

/// Part-header ceiling, never below one read chunk.
pub open spec fn mp_header_ceiling(fc: FormConstraints, bsz: nat) -> int {
    if bsz > fc.cfg_header() {
        bsz as int
    } else {
        fc.cfg_header() as int
    }
}

/// Text-value ceiling for a named field, never below one read chunk.
pub open spec fn mp_value_ceiling(fc: FormConstraints, name: Seq<u8>, bsz: nat) -> int {
    if bsz > fc.field_limit(name) {
        bsz as int
    } else {
        fc.field_limit(name) as int
    }
}

/// File ceiling for a named field, never below one read chunk.
pub open spec fn mp_file_ceiling(fc: FormConstraints, name: Seq<u8>, bsz: nat) -> int {
    if bsz > fc.file_limit(name) {
        bsz as int
    } else {
        fc.file_limit(name) as int
    }
}

/// What one header phase yields.
pub enum MpStep {
    /// The stream ran out before the phase was decided.
    Incomplete,
    /// The part header passed its ceiling before its terminator.
    TooBig,
    /// The leading boundary line or a disposition line was unusable.
    Malformed,
    /// A parsed part header and the stream bytes that follow it.
    Header { st: MpHeaderState, rest: Seq<u8> },
}

/// Scans for the `\r\n\r\n` that ends a part's header block, under the
/// header ceiling.
pub open spec fn header_scan(s: Seq<u8>, hmax: int) -> MpStep {
    match find_sub(s, head_marker()) {
        None => if s.len() >= hmax {
            MpStep::TooBig
        } else {
            MpStep::Incomplete
        },
        Some(p) => if p + 4 > hmax {
            MpStep::TooBig
        } else {
            let st = part_header_of(s.take(p));
            if st.failed {
                MpStep::Malformed
            } else {
                MpStep::Header { st, rest: s.skip(p + 4) }
            }
        },
    }
}

/// One header phase: on the very first part the leading `--boundary\r\n`
/// line is stripped first.
pub open spec fn header_step(s: Seq<u8>, b: Seq<u8>, first_pending: bool, hmax: int) -> MpStep {
    if first_pending {
        if s.len() < sbound(b).len() {
            MpStep::Incomplete
        } else if !is_prefix_of(sbound(b), s) {
            MpStep::Malformed
        } else {
            header_scan(s.skip(sbound(b).len() as int), hmax)
        }
    } else {
        header_scan(s, hmax)
    }
}

/// What one body phase yields.
pub enum MpBody {
    /// The stream ran out before the phase was decided.
    Incomplete,
    /// The body passed its ceiling before the boundary terminator.
    TooBig,
    /// The captured body, whether this part was the final one, and the
    /// stream bytes of the next part when it was not.
    Done { body: Seq<u8>, finished: bool, rest: Seq<u8> },
}

/// Scans a part body for `\r\n--boundary`, committing only once the four
/// bytes after it classify the continuation: `--\r\n` closes the body,
/// anything else starts the next part after the line break.
pub open spec fn body_scan(s: Seq<u8>, b: Seq<u8>, ceiling: int) -> MpBody {
    let term = body_term(b);
    match find_sub(s, term) {
        None => if s.len() > ceiling + term.len() {
            MpBody::TooBig
        } else {
            MpBody::Incomplete
        },
        Some(q) => if q > ceiling {
            MpBody::TooBig
        } else if s.len() < q + term.len() + 4 {
            MpBody::Incomplete
        } else if s.subrange(q + term.len(), q + term.len() + 4) == endmark() {
            MpBody::Done { body: s.take(q), finished: true, rest: s.skip(q + term.len() + 4) }
        } else {
            MpBody::Done { body: s.take(q), finished: false, rest: s.skip(q + term.len() + 2) }
        },
    }
}

/// A stray trailing line break inside a captured text value is removed.
pub open spec fn normalize_value(b: Seq<u8>) -> Seq<u8> {
    if b.len() >= 2 && b[b.len() - 2] == 13 && b[b.len() - 1] == 10 {
        b.take(b.len() - 2)
    } else {
        b
    }
}

/// Reads chunks until the buffer holds at least `n` bytes of the
/// remaining stream.
fn fill_to<S: AbstractStream>(
    stream: &mut S,
    buffer: &mut Vec<u8>,
    n: usize,
    Ghost(c): Ghost<Seq<u8>>,
) -> (r: Result<(), FormFieldError>)
    requires
        old(stream).wf(),
        old(buffer)@.len() <= c.len(),
        old(buffer)@ == c.take(old(buffer)@.len() as int),
        old(stream).content() == c.skip(old(buffer)@.len() as int),
        old(buffer)@.len() > 0 ==> old(stream).pushback().len() == 0,
    ensures
        final(stream).wf(),
        final(stream).chunk_size() == old(stream).chunk_size(),
        final(stream).written() == old(stream).written(),
        final(buffer)@.len() <= c.len(),
        final(buffer)@ == c.take(final(buffer)@.len() as int),
        final(stream).content() == c.skip(final(buffer)@.len() as int),
        final(buffer)@.len() > 0 ==> final(stream).pushback().len() == 0,
        old(buffer)@.len() <= final(buffer)@.len(),
        r is Ok <==> n <= c.len(),
        r is Ok ==> final(buffer)@.len() >= n,
        r matches Err(e) ==> (e matches FormFieldError::Others(f, _, _) && f is None),
{
    loop
        invariant
            stream.wf(),
            stream.chunk_size() == old(stream).chunk_size(),
            stream.written() == old(stream).written(),
            buffer@.len() <= c.len(),
            buffer@ == c.take(buffer@.len() as int),
            stream.content() == c.skip(buffer@.len() as int),
            buffer@.len() > 0 ==> stream.pushback().len() == 0,
            old(buffer)@.len() <= buffer@.len(),
        decreases c.len() + 1 - buffer@.len(),
    {
        let ghost blen = buffer@.len() as int;
        if buffer.len() >= n {
            return Ok(());
        }
        match stream.read_chunk() {
            Ok(chunk) => {
                let ghost ch = chunk@;
                let mut chunk_m = chunk;
                buffer.append(&mut chunk_m);
                proof {
                    assert forall|k: int| 0 <= k < buffer@.len() implies buffer@[k] == c.take(
                        blen + ch.len(),
                    )[k] by {
                        if k < blen {
                            assert(buffer@[k] == c.take(blen)[k]);
                        } else {
                            assert(buffer@[k] == ch[k - blen]);
                            assert(ch[k - blen] == c.skip(blen)[k - blen]);
                        }
                    }
                    assert(buffer@ =~= c.take(blen + ch.len()));
                }
            },
            Err(e) => {
                proof {
                    assert(c.take(blen) =~= c);
                }
                return Err(FormFieldError::Others(None, e.description(), true));
            },
        }
    }
}

/// Why a body scan stopped without a body.
enum ScanStop {
    /// The body passed its ceiling.
    TooBig,
    /// The stream ran out first, with the transport's description.
    Stream(String),
}

/// Runs one body phase against the stream: scans for the boundary
/// terminator under a ceiling, restores the next part's bytes when the
/// body was not the final one.
fn scan_body<S: AbstractStream>(stream: &mut S, boundary: &Vec<u8>, ceiling: usize) -> (r: Result<
    (Vec<u8>, bool),
    ScanStop,
>)
    requires
        old(stream).wf(),
    ensures
        final(stream).wf(),
        final(stream).chunk_size() == old(stream).chunk_size(),
        final(stream).written() == old(stream).written(),
        ({
            let step = body_scan(old(stream).content(), boundary@, ceiling as int);
            &&& (r is Ok <==> step is Done)
            &&& (r matches Ok(out) ==> step matches MpBody::Done { body, finished, rest }
                && out.0@ == body && out.1 == finished && (!finished ==> final(stream).content()
                == rest))
            &&& (r matches Err(e) ==> match e {
                ScanStop::TooBig => step is TooBig,
                ScanStop::Stream(_) => step is Incomplete,
            })
        }),
{
    let ghost c = old(stream).content();
    let mut term: Vec<u8> = Vec::new();
    term.push(13u8);
    term.push(10u8);
    term.push(45u8);
    term.push(45u8);
    let mut bm = vstd::slice::slice_to_vec(boundary.as_slice());
    term.append(&mut bm);
    proof {
        assert(term@ =~= body_term(boundary@));
    }
    let tlen: usize = term.len();
    let mut em: Vec<u8> = Vec::new();
    em.push(45u8);
    em.push(45u8);
    em.push(13u8);
    em.push(10u8);
    assert(em@ =~= endmark());

    let mut buffer: Vec<u8> = Vec::new();
    proof {
        assert(buffer@ =~= c.take(0));
        assert(stream.content() =~= c.skip(0));
    }
    loop
        invariant
            stream.wf(),
            stream.chunk_size() == old(stream).chunk_size(),
            stream.written() == old(stream).written(),
            c == old(stream).content(),
            term@ == body_term(boundary@),
            tlen == term@.len(),
            em@ == endmark(),
            buffer@.len() <= c.len(),
            buffer@ == c.take(buffer@.len() as int),
            stream.content() == c.skip(buffer@.len() as int),
            buffer@.len() > 0 ==> stream.pushback().len() == 0,
        decreases c.len() + 1 - buffer@.len(),
    {
        let ghost blen = buffer@.len() as int;
        let blen_e: usize = buffer.len();
        match find_window(buffer.as_slice(), term.as_slice()) {
            Some(q) => {
                proof {
                    lemma_find_take_some(c, blen, term@);
                    lemma_find_from_props(buffer@, term@, 0);
                    assert(match_at(buffer@, term@, q as int));
                    assert(q + tlen <= blen_e);
                }
                if q > ceiling {
                    return Err(ScanStop::TooBig);
                }
                if blen_e - (q + tlen) >= 4 {
                    // enough lookahead to classify the continuation
                    let after = &buffer.as_slice()[q + tlen..q + tlen + 4];
                    assert(after@ == buffer@.subrange(q + tlen, q + tlen + 4));
                    proof {
                        assert(buffer@.subrange(q + tlen, q + tlen + 4) =~= c.subrange(
                            q + tlen,
                            q + tlen + 4,
                        ));
                    }
                    let body = vstd::slice::slice_to_vec(&buffer.as_slice()[0..q]);
                    proof {
                        assert(body@ == buffer@.take(q as int));
                        assert(c.take(blen).take(q as int) =~= c.take(q as int));
                    }
                    if slice_eq(after, em.as_slice()) {
                        return Ok((body, true));
                    } else {
                        let rest = &buffer.as_slice()[q + tlen + 2..blen_e];
                        assert(rest@ == buffer@.skip(q + tlen + 2));
                        let _restore_result = stream.restore_payload(rest);
                        proof {
                            assert(c.take(blen).skip(q + tlen + 2) + c.skip(blen) =~= c.skip(
                                q + tlen + 2,
                            ));
                        }
                        return Ok((body, false));
                    }
                }
            },
            None => {
                proof {
                    lemma_find_take_none(c, blen, term@);
                }
                if blen_e > ceiling && blen_e - ceiling > tlen {
                    proof {
                        if find_sub(c, term@) is Some {
                            lemma_find_from_props(c, term@, 0);
                        }
                    }
                    return Err(ScanStop::TooBig);
                }
            },
        }
        match stream.read_chunk() {
            Ok(chunk) => {
                let ghost ch = chunk@;
                let mut chunk_m = chunk;
                buffer.append(&mut chunk_m);
                proof {
                    assert forall|k: int| 0 <= k < buffer@.len() implies buffer@[k] == c.take(
                        blen + ch.len(),
                    )[k] by {
                        if k < blen {
                            assert(buffer@[k] == c.take(blen)[k]);
                        } else {
                            assert(buffer@[k] == ch[k - blen]);
                            assert(ch[k - blen] == c.skip(blen)[k - blen]);
                        }
                    }
                    assert(buffer@ =~= c.take(blen + ch.len()));
                }
            },
            Err(e) => {
                proof {
                    assert(c.take(blen) =~= c);
                    if find_sub(c, term@) is Some {
                        lemma_find_take_some(c, blen, term@);
                    }
                }
                return Err(ScanStop::Stream(e.description()));
            },
        }
    }
}

/// The boundary token the multipart body was declared with: taken from
/// the first `Content-Type` header's `boundary=` parameter.
pub open spec fn mp_boundary_of(hv: Seq<crate::headers::HeaderEntry>) -> Option<Seq<u8>> {
    match crate::headers::header_lookup(hv, str_bytes("content-type"@)) {
        None => None,
        Some(i) => match crate::headers::boundary_of(str_bytes(lossy_decoded(hv[i].1[0]))) {
            None => None,
            Some(bb) => Some(str_bytes(lossy_decoded(bb))),
        },
    }
}

/// Stateful multipart scanner: alternates a header phase and a body
/// phase over the stream it owns.
pub struct MultipartParser<'a, S: AbstractStream> {
    stream: S,
    form_constraints: &'a FormConstraints,
    boundary: Vec<u8>,
    allow_next_header_read: bool,
    first_header_scanned: bool,
}

impl<'a, S: AbstractStream> MultipartParser<'a, S> {
    /// The stream the scanner owns.
    pub closed spec fn st(&self) -> S {
        self.stream
    }

    /// The constraints the scanner enforces.
    pub closed spec fn fc(&self) -> FormConstraints {
        *self.form_constraints
    }

    /// The boundary token bytes.
    pub closed spec fn bnd(&self) -> Seq<u8> {
        self.boundary@
    }

    /// A header phase may run next.
    pub closed spec fn allow(&self) -> bool {
        self.allow_next_header_read
    }

    /// The leading boundary line has already been stripped.
    pub closed spec fn first_done(&self) -> bool {
        self.first_header_scanned
    }

    pub open spec fn wf(&self) -> bool {
        self.st().wf()
    }

    /// A scanner for the boundary the headers declare; a missing content
    /// type or boundary parameter is rejected here.
    pub fn from(stream: S, headers: &Headers, form_constraints: &'a FormConstraints) -> (r: Result<
        MultipartParser<'a, S>,
        FormFieldError,
    >)
        requires
            stream.wf(),
            headers.wf(),
        ensures
            r is Ok <==> mp_boundary_of(headers@) is Some,
            r matches Ok(p) ==> p.st() == stream && p.bnd() == mp_boundary_of(headers@)->Some_0
                && p.allow() && !p.first_done() && p.fc() == *form_constraints && p.wf(),
            r matches Err(e) ==> (e matches FormFieldError::Others(f, _, _) && f is None),
    {
        let content_type = match headers.value("content-type") {
            Some(v) => v,
            None => {
                return Err(
                    FormFieldError::Others(
                        None,
                        String::from_str("Content-Type header is missing."),
                        true,
                    ),
                );
            },
        };
        let boundary_text = match crate::headers::multipart_boundary(&content_type) {
            Ok(b) => b,
            Err(_) => {
                return Err(
                    FormFieldError::Others(None, String::from_str("Boundary missing."), true),
                );
            },
        };
        let boundary = boundary_text.as_str().as_bytes_vec();
        Ok(
            MultipartParser {
                stream,
                form_constraints,
                boundary,
                allow_next_header_read: true,
                first_header_scanned: false,
            },
        )
    }

    /// Gives the stream back once decoding is over.
    pub fn into_stream(self) -> (r: S)
        ensures
            r == self.st(),
    {
        self.stream
    }

    /// Runs one header phase: strips the leading boundary line on the
    /// very first part, scans for the `\r\n\r\n` that ends the part's
    /// header block under the header ceiling, parses it, and pushes the
    /// body bytes back for the body phase.
    pub fn next_form_header(&mut self) -> (r: Result<FormPart, FormFieldError>)
        requires
            old(self).wf(),
        ensures
            final(self).wf(),
            final(self).bnd() == old(self).bnd(),
            final(self).fc() == old(self).fc(),
            final(self).st().chunk_size() == old(self).st().chunk_size(),
            final(self).st().written() == old(self).st().written(),
            !old(self).allow() ==> (r matches Err(FormFieldError::Others(f, _, _)) && f is None
                && *final(self) == *old(self)),
            old(self).allow() ==> ({
                let step = header_step(
                    old(self).st().content(),
                    old(self).bnd(),
                    !old(self).first_done(),
                    mp_header_ceiling(old(self).fc(), old(self).st().chunk_size()),
                );
                &&& (r is Ok <==> step is Header)
                &&& (r matches Ok(fp) ==> step matches MpStep::Header { st, rest } && {
                    &&& (fp.name is Some <==> st.name is Some)
                    &&& (fp.name is Some ==> fp.name->Some_0@ == lossy_decoded(st.name->Some_0))
                    &&& (fp.filename is Some <==> st.filename is Some)
                    &&& (fp.filename is Some ==> fp.filename->Some_0@ == lossy_decoded(
                        st.filename->Some_0,
                    ))
                    &&& (fp.content_type is Some <==> st.content_type is Some)
                    &&& (fp.content_type is Some ==> fp.content_type->Some_0@ == lossy_decoded(
                        st.content_type->Some_0,
                    ))
                    &&& fp.value is None
                    &&& fp.file is None
                    &&& final(self).st().content() == rest
                    &&& !final(self).allow()
                    &&& final(self).first_done()
                })
                &&& (r matches Err(e) ==> match e {
                    FormFieldError::MaxHeaderSizeExceed => step is TooBig,
                    FormFieldError::Others(f, _, _) => f is None && (step is Malformed
                        || step is Incomplete),
                    _ => false,
                })
            }),
    {
        if !self.allow_next_header_read {
            return Err(
                FormFieldError::Others(None, String::from_str("Form part body not read."), true),
            );
        }
        let ghost c = self.stream.content();
        let ghost first_pending = !self.first_header_scanned;
        let buffer_size = self.stream.buffer_size();
        let max_header_size = self.form_constraints.max_header_size(buffer_size);
        let ghost maxh = mp_header_ceiling(self.fc(), self.st().chunk_size());

        let mut buffer: Vec<u8> = Vec::new();
        let ghost mut tail = c;
        proof {
            assert(buffer@ =~= c.take(0));
            assert(self.stream.content() =~= c.skip(0));
        }
        if !self.first_header_scanned {
            let mut sb: Vec<u8> = Vec::new();
            sb.push(45u8);
            sb.push(45u8);
            let mut bcopy = vstd::slice::slice_to_vec(self.boundary.as_slice());
            sb.append(&mut bcopy);
            sb.push(13u8);
            sb.push(10u8);
            proof {
                assert(sb@ =~= sbound(self.boundary@));
            }
            let sblen: usize = sb.len();
            match fill_to(&mut self.stream, &mut buffer, sblen, Ghost(c)) {
                Err(e) => {
                    return Err(e);
                },
                Ok(_) => {},
            }
            if !slice_starts_with(buffer.as_slice(), sb.as_slice()) {
                proof {
                    if is_prefix_of(sb@, c) {
                        assert(c.take(buffer@.len() as int).take(sblen as int) =~= c.take(
                            sblen as int,
                        ));
                        assert(buffer@.take(sblen as int) == sb@);
                    }
                }
                return Err(
                    FormFieldError::Others(
                        None,
                        String::from_str("Boundary does not start the body."),
                        true,
                    ),
                );
            }
            proof {
                assert(c.take(buffer@.len() as int).take(sblen as int) =~= c.take(sblen as int));
                assert(is_prefix_of(sb@, c));
            }
            let blen_e: usize = buffer.len();
            let stripped = vstd::slice::slice_to_vec(&buffer.as_slice()[sblen..blen_e]);
            proof {
                tail = c.skip(sblen as int);
            }
            buffer = stripped;
            self.first_header_scanned = true;
            proof {
                assert(buffer@ =~= tail.take(buffer@.len() as int));
                assert(self.stream.content() =~= tail.skip(buffer@.len() as int));
            }
        }
        proof {
            assert(header_step(c, self.bnd(), first_pending, maxh) == header_scan(tail, maxh));
        }
        loop
            invariant
                self.stream.wf(),
                self.stream.chunk_size() == old(self).st().chunk_size(),
                self.stream.written() == old(self).st().written(),
                self.boundary@ == old(self).bnd(),
                self.form_constraints == old(self).form_constraints,
                self.allow_next_header_read,
                self.first_header_scanned,
                old(self).allow(),
                maxh == mp_header_ceiling(old(self).fc(), old(self).st().chunk_size()),
                max_header_size as int == maxh,
                header_step(c, old(self).bnd(), first_pending, maxh) == header_scan(tail, maxh),
                c == old(self).st().content(),
                first_pending == !old(self).first_done(),
                buffer@.len() <= tail.len(),
                buffer@ == tail.take(buffer@.len() as int),
                self.stream.content() == tail.skip(buffer@.len() as int),
                buffer@.len() > 0 ==> self.stream.pushback().len() == 0,
            decreases tail.len() + 1 - buffer@.len(),
        {
            let ghost blen = buffer@.len() as int;
            let blen_e: usize = buffer.len();
            let mut term_v: Vec<u8> = Vec::new();
            term_v.push(13u8);
            term_v.push(10u8);
            term_v.push(13u8);
            term_v.push(10u8);
            assert(term_v@ =~= head_marker());
            match find_window(buffer.as_slice(), term_v.as_slice()) {
                Some(p) => {
                    proof {
                        lemma_find_take_some(tail, blen, head_marker());
                        lemma_find_from_props(buffer@, head_marker(), 0);
                        assert(match_at(buffer@, head_marker(), p as int));
                        assert(p + 4 <= blen_e);
                    }
                    if p + 4 <= max_header_size {
                        let rest = &buffer.as_slice()[p + 4..blen_e];
                        assert(rest@ == buffer@.skip(p + 4));
                        let _restore_result = self.stream.restore_payload(rest);
                        proof {
                            assert(tail.take(blen).skip(p + 4) + tail.skip(blen) =~= tail.skip(
                                p + 4,
                            ));
                        }
                        let head = &buffer.as_slice()[0..p];
                        proof {
                            assert(head@ == buffer@.take(p as int));
                            assert(tail.take(blen).take(p as int) =~= tail.take(p as int));
                        }
                        match parse_form_part_header(head) {
                            Ok(fp) => {
                                self.allow_next_header_read = false;
                                return Ok(fp);
                            },
                            Err(e) => {
                                return Err(e);
                            },
                        }
                    } else {
                        return Err(FormFieldError::MaxHeaderSizeExceed);
                    }
                },
                None => {
                    proof {
                        lemma_find_take_none(tail, blen, head_marker());
                    }
                    if blen_e >= max_header_size {
                        proof {
                            if find_sub(tail, head_marker()) is Some {
                                lemma_find_from_props(tail, head_marker(), 0);
                            }
                        }
                        return Err(FormFieldError::MaxHeaderSizeExceed);
                    }
                    match self.stream.read_chunk() {
                        Ok(chunk) => {
                            let ghost ch = chunk@;
                            let mut chunk_m = chunk;
                            buffer.append(&mut chunk_m);
                            proof {
                                assert forall|k: int| 0 <= k < buffer@.len() implies buffer@[k]
                                    == tail.take(blen + ch.len())[k] by {
                                    if k < blen {
                                        assert(buffer@[k] == tail.take(blen)[k]);
                                    } else {
                                        assert(buffer@[k] == ch[k - blen]);
                                        assert(ch[k - blen] == tail.skip(blen)[k - blen]);
                                    }
                                }
                                assert(buffer@ =~= tail.take(blen + ch.len()));
                            }
                        },
                        Err(e) => {
                            proof {
                                assert(tail.take(blen) =~= tail);
                            }
                            return Err(FormFieldError::Others(None, e.description(), true));
                        },
                    }
                },
            }
        }
    }
}

impl<'a, S: AbstractStream> MultipartParser<'a, S> {
    /// Runs the body phase for a text field: captures bytes up to the
    /// boundary terminator under the field's value ceiling, normalizes a
    /// stray trailing line break, and stores the value on the part.
    /// The returned flag says whether this was the final part.
    pub fn parse_value(&mut self, form_part: &mut FormPart) -> (r: Result<bool, FormFieldError>)
        requires
            old(self).wf(),
        ensures
            final(self).wf(),
            final(self).bnd() == old(self).bnd(),
            final(self).fc() == old(self).fc(),
            final(self).first_done() == old(self).first_done(),
            final(self).st().chunk_size() == old(self).st().chunk_size(),
            final(self).st().written() == old(self).st().written(),
            old(form_part).name is None ==> (r matches Err(FormFieldError::Others(f, _, _))
                && f is None && *final(self) == *old(self) && *final(form_part) == *old(form_part)),
            old(form_part).name is Some ==> ({
                let name_s = old(form_part).name->Some_0@;
                let step = body_scan(
                    old(self).st().content(),
                    old(self).bnd(),
                    mp_value_ceiling(old(self).fc(), str_bytes(name_s), old(self).st().chunk_size()),
                );
                &&& (r is Ok <==> step is Done)
                &&& (r matches Ok(finished) ==> step matches MpBody::Done {
                    body,
                    finished: f2,
                    rest,
                } && finished == f2 && (final(form_part).value matches Some(v) && v@
                    == lossy_decoded(normalize_value(body))) && final(form_part).name == old(form_part).name && final(form_part).filename == old(form_part).filename && final(form_part).content_type == old(form_part).content_type && final(form_part).file == old(form_part).file && final(self).allow() && (!f2 ==> final(self).st().content() == rest))
                &&& (r matches Err(e) ==> match e {
                    FormFieldError::MaxValueSizeExceed(n) => step is TooBig && n@ == name_s,
                    FormFieldError::Others(f, _, _) => f is None && step is Incomplete,
                    _ => false,
                })
            }),
    {
        let field_name = match &form_part.name {
            Some(v) => v,
            None => {
                return Err(
                    FormFieldError::Others(
                        None,
                        String::from_str("Field name is missing."),
                        false,
                    ),
                );
            },
        };
        let buffer_size = self.stream.buffer_size();
        let max_value_size = self.form_constraints.max_size_for_field(field_name, buffer_size);
        match scan_body(&mut self.stream, &self.boundary, max_value_size) {
            Ok(out) => {
                let (mut body, finished) = out;
                let blen: usize = body.len();
                if blen >= 2 && body[blen - 2] == 13 && body[blen - 1] == 10 {
                    body.truncate(blen - 2);
                }
                proof {
                    assert(body@ == normalize_value(out.0@));
                }
                form_part.value = Some(lossy_string(body.as_slice()));
                self.allow_next_header_read = true;
                Ok(finished)
            },
            Err(ScanStop::TooBig) => {
                let name_copy = field_name.clone();
                Err(FormFieldError::MaxValueSizeExceed(name_copy))
            },
            Err(ScanStop::Stream(d)) => Err(FormFieldError::Others(None, d, true)),
        }
    }

    /// Runs the body phase for a file field: captures bytes up to the
    /// boundary terminator under the field's file ceiling and stores the
    /// file content on the part. The returned flag says whether this was
    /// the final part.
    pub fn parse_file(&mut self, form_part: &mut FormPart) -> (r: Result<bool, FormFieldError>)
        requires
            old(self).wf(),
        ensures
            final(self).wf(),
            final(self).bnd() == old(self).bnd(),
            final(self).fc() == old(self).fc(),
            final(self).first_done() == old(self).first_done(),
            final(self).st().chunk_size() == old(self).st().chunk_size(),
            final(self).st().written() == old(self).st().written(),
            old(form_part).name is None ==> (r matches Err(FormFieldError::Others(f, _, _))
                && f is None && *final(self) == *old(self) && *final(form_part) == *old(form_part)),
            old(form_part).name is Some ==> ({
                let name_s = old(form_part).name->Some_0@;
                let step = body_scan(
                    old(self).st().content(),
                    old(self).bnd(),
                    mp_file_ceiling(old(self).fc(), str_bytes(name_s), old(self).st().chunk_size()),
                );
                &&& (r is Ok <==> step is Done)
                &&& (r matches Ok(finished) ==> step matches MpBody::Done {
                    body,
                    finished: f2,
                    rest,
                } && finished == f2 && (final(form_part).file matches Some(v) && v@ == body)
                    && final(form_part).name == old(form_part).name && final(form_part).filename
                    == old(form_part).filename && final(form_part).content_type == old(form_part).content_type && final(form_part).value == old(form_part).value && final(self).allow() && (!f2 ==> final(self).st().content() == rest))
                &&& (r matches Err(e) ==> match e {
                    FormFieldError::MaxFileSizeExceed(n) => step is TooBig && n@ == name_s,
                    FormFieldError::Others(f, _, _) => f is None && step is Incomplete,
                    _ => false,
                })
            }),
    {
        let field_name = match &form_part.name {
            Some(v) => v,
            None => {
                return Err(
                    FormFieldError::Others(
                        None,
                        String::from_str("Field name is missing."),
                        false,
                    ),
                );
            },
        };
        let buffer_size = self.stream.buffer_size();
        let max_file_size = self.form_constraints.max_size_for_file(field_name, buffer_size);
        match scan_body(&mut self.stream, &self.boundary, max_file_size) {
            Ok(out) => {
                let (body, finished) = out;
                form_part.file = Some(body);
                self.allow_next_header_read = true;
                Ok(finished)
            },
            Err(ScanStop::TooBig) => {
                let name_copy = field_name.clone();
                Err(FormFieldError::MaxFileSizeExceed(name_copy))
            },
            Err(ScanStop::Stream(d)) => Err(FormFieldError::Others(None, d, true)),
        }
    }

    /// Runs the body phase that matches the part: the file phase when the
    /// part carries a filename, else the text phase. A header phase must
    /// have run first.
    pub fn next_form_value(&mut self, form_part: &mut FormPart) -> (r: Result<
        bool,
        FormFieldError,
    >)
        requires
            old(self).wf(),
        ensures
            final(self).wf(),
            final(self).bnd() == old(self).bnd(),
            final(self).fc() == old(self).fc(),
            final(self).first_done() == old(self).first_done(),
            final(self).st().chunk_size() == old(self).st().chunk_size(),
            final(self).st().written() == old(self).st().written(),
            old(self).allow() ==> (r matches Err(FormFieldError::Others(f, _, _)) && f is None
                && *final(self) == *old(self) && *final(form_part) == *old(form_part)),
            !old(self).allow() && old(form_part).name is None ==> (r matches Err(
                FormFieldError::Others(f, _, _),
            ) && f is None && *final(self) == *old(self) && *final(form_part) == *old(form_part)),
            !old(self).allow() && old(form_part).name is Some ==> ({
                let name_s = old(form_part).name->Some_0@;
                let is_file = old(form_part).filename is Some;
                let step = body_scan(
                    old(self).st().content(),
                    old(self).bnd(),
                    if is_file {
                        mp_file_ceiling(old(self).fc(), str_bytes(name_s), old(self).st().chunk_size())
                    } else {
                        mp_value_ceiling(old(self).fc(), str_bytes(name_s), old(self).st().chunk_size())
                    },
                );
                &&& (r is Ok <==> step is Done)
                &&& (r matches Ok(finished) ==> step matches MpBody::Done {
                    body,
                    finished: f2,
                    rest,
                } && finished == f2 && final(form_part).name == old(form_part).name && final(form_part).filename == old(form_part).filename && final(form_part).content_type == old(form_part).content_type && (if is_file {
                    final(form_part).file matches Some(v) && v@ == body && final(form_part).value
                        == old(form_part).value
                } else {
                    final(form_part).value matches Some(v) && v@ == lossy_decoded(
                        normalize_value(body),
                    ) && final(form_part).file == old(form_part).file
                }) && final(self).allow() && (!f2 ==> final(self).st().content() == rest))
                &&& (r matches Err(e) ==> match e {
                    FormFieldError::MaxValueSizeExceed(n) => !is_file && step is TooBig && n@
                        == name_s,
                    FormFieldError::MaxFileSizeExceed(n) => is_file && step is TooBig && n@
                        == name_s,
                    FormFieldError::Others(f, _, _) => f is None && step is Incomplete,
                    _ => false,
                })
            }),
    {
        if self.allow_next_header_read {
            return Err(
                FormFieldError::Others(
                    None,
                    String::from_str("Form part header is not read."),
                    true,
                ),
            );
        }
        if form_part.filename.is_some() {
            self.parse_file(form_part)
        } else {
            self.parse_value(form_part)
        }
    }
}

/// The final outcome of decoding a whole multipart body.
pub enum MpFinal {
    /// The accumulated field and file maps.
    Complete { fields: Seq<(Seq<char>, Seq<Seq<char>>)>, files: Seq<(Seq<char>, Seq<(Seq<char>, Seq<u8>)>)> },
    /// A part header passed its ceiling.
    HeaderTooBig,
    /// A text value passed its ceiling; carries the raw field name.
    ValueTooBig(Seq<u8>),
    /// A file passed its ceiling; carries the raw field name.
    FileTooBig(Seq<u8>),
    /// The body does not follow the multipart grammar.
    Malformed,
    /// The stream ran out before the body was complete.
    Incomplete,
}

/// Decodes a whole multipart body: alternating header and body phases,
/// folding each part into the field map (text values, normalized and
/// decoded lossily) or the file map (file name and raw content), until a
/// body phase reports the final part.
pub open spec fn mp_run(
    fd: Seq<(Seq<char>, Seq<Seq<char>>)>,
    fl: Seq<(Seq<char>, Seq<(Seq<char>, Seq<u8>)>)>,
    s: Seq<u8>,
    b: Seq<u8>,
    first: bool,
    fc: FormConstraints,
    bsz: nat,
) -> MpFinal
    decreases s.len(),
{
    match header_step(s, b, first, mp_header_ceiling(fc, bsz)) {
        MpStep::Incomplete => MpFinal::Incomplete,
        MpStep::TooBig => MpFinal::HeaderTooBig,
        MpStep::Malformed => MpFinal::Malformed,
        MpStep::Header { st, rest } => {
            if st.name is None {
                MpFinal::Malformed
            } else {
                let name = st.name->Some_0;
                let sname = crate::parser::stored_name(name);
                if st.filename is Some {
                    match body_scan(rest, b, mp_file_ceiling(fc, sname, bsz)) {
                        MpBody::Incomplete => MpFinal::Incomplete,
                        MpBody::TooBig => MpFinal::FileTooBig(name),
                        MpBody::Done { body, finished, rest: r2 } => {
                            let fl2 = spec_add_file(
                                fl,
                                lossy_decoded(name),
                                (lossy_decoded(st.filename->Some_0), body),
                            );
                            if finished {
                                MpFinal::Complete { fields: fd, files: fl2 }
                            } else if r2.len() < s.len() {
                                mp_run(fd, fl2, r2, b, false, fc, bsz)
                            } else {
                                MpFinal::Malformed
                            }
                        },
                    }
                } else {
                    match body_scan(rest, b, mp_value_ceiling(fc, sname, bsz)) {
                        MpBody::Incomplete => MpFinal::Incomplete,
                        MpBody::TooBig => MpFinal::ValueTooBig(name),
                        MpBody::Done { body, finished, rest: r2 } => {
                            let fd2 = spec_add_value(
                                fd,
                                lossy_decoded(name),
                                lossy_decoded(normalize_value(body)),
                            );
                            if finished {
                                MpFinal::Complete { fields: fd2, files: fl }
                            } else if r2.len() < s.len() {
                                mp_run(fd2, fl, r2, b, false, fc, bsz)
                            } else {
                                MpFinal::Malformed
                            }
                        },
                    }
                }
            }
        },
    }
}

/// A header phase that yields a part consumes at least one byte.
proof fn lemma_header_step_consumes(s: Seq<u8>, b: Seq<u8>, first: bool, hmax: int)
    requires
        header_step(s, b, first, hmax) is Header,
    ensures
        header_step(s, b, first, hmax)->Header_rest.len() < s.len(),
{
    if first {
        let s2 = s.skip(sbound(b).len() as int);
        let p = find_sub(s2, head_marker())->Some_0;
        lemma_find_from_props(s2, head_marker(), 0);
        assert(match_at(s2, head_marker(), p));
    } else {
        let p = find_sub(s, head_marker())->Some_0;
        lemma_find_from_props(s, head_marker(), 0);
        assert(match_at(s, head_marker(), p));
    }
}

/// A body phase that continues to another part consumes at least one
/// byte.
proof fn lemma_body_scan_consumes(s: Seq<u8>, b: Seq<u8>, ceiling: int)
    requires
        body_scan(s, b, ceiling) is Done,
    ensures
        body_scan(s, b, ceiling)->Done_rest.len() < s.len(),
{
    let term = body_term(b);
    let q = find_sub(s, term)->Some_0;
    lemma_find_from_props(s, term, 0);
    assert(match_at(s, term, q));
}

impl<'a, S: AbstractStream> MultipartParser<'a, S> {
    /// Decodes a whole multipart body into field and file maps; gives the
    /// stream back beside the result.
    ///
    /// The maps and every error are a function of the stream's bytes, the
    /// declared boundary and the configured ceilings alone, so decoding
    /// is unchanged by how the bytes were chunked.
    pub fn parse(stream: S, form_constraints: &FormConstraints, headers: &Headers) -> (r: (
        Result<(FormData, Files), FormFieldError>,
        S,
    ))
        requires
            stream.wf(),
            headers.wf(),
        ensures
            r.1.wf(),
            r.1.chunk_size() == stream.chunk_size(),
            r.1.written() == stream.written(),
            mp_boundary_of(headers@) is None ==> (r.0 matches Err(FormFieldError::Others(f, _, _))
                && f is None),
            mp_boundary_of(headers@) matches Some(b) ==> ({
                let out = mp_run(
                    Seq::empty(),
                    Seq::empty(),
                    stream.content(),
                    b,
                    true,
                    *form_constraints,
                    stream.chunk_size(),
                );
                &&& (r.0 is Ok <==> out is Complete)
                &&& (r.0 matches Ok(pair) ==> out matches MpFinal::Complete { fields, files }
                    && pair.0@ == fields && pair.1@ == files && pair.0.wf() && pair.1.wf())
                &&& (r.0 matches Err(e) ==> match e {
                    FormFieldError::MaxHeaderSizeExceed => out is HeaderTooBig,
                    FormFieldError::MaxValueSizeExceed(n) => out matches MpFinal::ValueTooBig(nm)
                        && n@ == lossy_decoded(nm),
                    FormFieldError::MaxFileSizeExceed(n) => out matches MpFinal::FileTooBig(nm)
                        && n@ == lossy_decoded(nm),
                    FormFieldError::MaxBodySizeExceed => false,
                    FormFieldError::Others(f, _, _) => f is None && (out is Malformed
                        || out is Incomplete),
                })
            }),
    {
        let ghost c0 = stream.content();
        let ghost cs0 = stream.chunk_size();
        let ghost w0 = stream.written();
        let content_type = match headers.value("content-type") {
            Some(v) => v,
            None => {
                return (
                    (
                        Err(
                            FormFieldError::Others(
                                None,
                                String::from_str("Content-Type header is missing."),
                                true,
                            ),
                        ),
                        stream,
                    )
                );
            },
        };
        let boundary_text = match crate::headers::multipart_boundary(&content_type) {
            Ok(b) => b,
            Err(_) => {
                return (
                    (
                        Err(
                            FormFieldError::Others(
                                None,
                                String::from_str("Boundary missing."),
                                true,
                            ),
                        ),
                        stream,
                    )
                );
            },
        };
        let boundary = boundary_text.as_str().as_bytes_vec();
        let ghost b = boundary@;
        let ghost fcv = *form_constraints;
        let mut parser = MultipartParser {
            stream,
            form_constraints,
            boundary,
            allow_next_header_read: true,
            first_header_scanned: false,
        };
        let mut form_data = FormData::new();
        let mut files = Files::new();
        proof {
            assert(form_data@ =~= Seq::<(Seq<char>, Seq<Seq<char>>)>::empty());
            assert(files@ =~= Seq::<(Seq<char>, Seq<(Seq<char>, Seq<u8>)>)>::empty());
        }
        loop
            invariant
                parser.wf(),
                parser.allow(),
                parser.bnd() == b,
                parser.fc() == fcv,
                fcv == *form_constraints,
                parser.st().chunk_size() == cs0,
                parser.st().written() == w0,
                cs0 == stream.chunk_size(),
                w0 == stream.written(),
                c0 == stream.content(),
                b == mp_boundary_of(headers@)->Some_0,
                mp_boundary_of(headers@) is Some,
                form_data.wf(),
                files.wf(),
                mp_run(
                    Seq::empty(),
                    Seq::empty(),
                    c0,
                    b,
                    true,
                    fcv,
                    cs0,
                ) == mp_run(
                    form_data@,
                    files@,
                    parser.st().content(),
                    b,
                    !parser.first_done(),
                    fcv,
                    cs0,
                ),
            decreases parser.st().content().len(),
        {
            let ghost s_cur = parser.st().content();
            let ghost first_cur = !parser.first_done();
            let ghost fd_pre = form_data@;
            let ghost fl_pre = files@;
            let ghost hstep = header_step(s_cur, b, first_cur, mp_header_ceiling(fcv, cs0));
            let mut fp = match parser.next_form_header() {
                Ok(fp) => fp,
                Err(e) => {
                    return (Err(e), parser.into_stream());
                },
            };
            let ghost hst = hstep->Header_st;
            let ghost rest = hstep->Header_rest;
            let finished = match parser.next_form_value(&mut fp) {
                Ok(f) => f,
                Err(e) => {
                    return (Err(e), parser.into_stream());
                },
            };
            let ghost name_raw = hst.name->Some_0;
            let ghost is_file = hst.filename is Some;
            let ghost ceiling = if is_file {
                mp_file_ceiling(fcv, crate::parser::stored_name(name_raw), cs0)
            } else {
                mp_value_ceiling(fcv, crate::parser::stored_name(name_raw), cs0)
            };
            let ghost bstep = body_scan(rest, b, ceiling);
            proof {
                assert(fp.name is Some);
                assert(fp.name->Some_0@ == lossy_decoded(name_raw));
                assert(crate::parser::stored_name(name_raw) == str_bytes(lossy_decoded(name_raw)));
                assert(bstep is Done);
            }
            let field_name = match fp.name {
                Some(v) => v,
                None => {
                    proof {
                        assert(false);
                    }
                    return (Err(FormFieldError::MaxBodySizeExceed), parser.into_stream());
                },
            };
            match fp.filename {
                Some(filename) => {
                    let file_bytes = match fp.file {
                        Some(v) => v,
                        None => {
                            proof {
                                assert(false);
                            }
                            return (Err(FormFieldError::MaxBodySizeExceed), parser.into_stream());
                        },
                    };
                    let file_field = FileField::from(filename.as_str(), file_bytes);
                    files.add_file(field_name.as_str(), file_field);
                },
                None => {
                    let value = match fp.value {
                        Some(v) => v,
                        None => {
                            proof {
                                assert(false);
                            }
                            return (Err(FormFieldError::MaxBodySizeExceed), parser.into_stream());
                        },
                    };
                    form_data.add_value(field_name.as_str(), value);
                },
            }
            proof {
                lemma_header_step_consumes(s_cur, b, first_cur, mp_header_ceiling(fcv, cs0));
                lemma_body_scan_consumes(rest, b, ceiling);
                let body = bstep->Done_body;
                let fin = bstep->Done_finished;
                let r2 = bstep->Done_rest;
                if is_file {
                    assert(files@ == spec_add_file(
                        fl_pre,
                        lossy_decoded(name_raw),
                        (lossy_decoded(hst.filename->Some_0), body),
                    ));
                    assert(form_data@ == fd_pre);
                } else {
                    assert(form_data@ == spec_add_value(
                        fd_pre,
                        lossy_decoded(name_raw),
                        lossy_decoded(normalize_value(body)),
                    ));
                    assert(files@ == fl_pre);
                }
                if fin {
                    assert(mp_run(fd_pre, fl_pre, s_cur, b, first_cur, fcv, cs0)
                        == (MpFinal::Complete { fields: form_data@, files: files@ }));
                } else {
                    assert(r2.len() < s_cur.len());
                    assert(mp_run(fd_pre, fl_pre, s_cur, b, first_cur, fcv, cs0) == mp_run(
                        form_data@,
                        files@,
                        r2,
                        b,
                        false,
                        fcv,
                        cs0,
                    ));
                    assert(parser.st().content() == r2);
                }
            }
            if finished {
                return (Ok((form_data, files)), parser.into_stream());
            }
        }
    }
}

/// A partial occurrence of `n` at `j`: every byte of `n` that is in
/// view agrees, so future bytes could complete the match.
pub open spec fn could_match(s: Seq<u8>, n: Seq<u8>, j: int) -> bool {
    0 <= j && forall|jj: int| 0 <= jj < n.len() && j + jj < s.len() ==> s[j + jj] == n[jj]
}

/// Accumulated state of an incremental file-body scan: bytes fed but not
/// yet handed out, and the ghost history of the scan. Retention is
/// bounded: between steps the state holds fewer than the terminator
/// length plus four bytes.
pub struct FileBodyScan {
    pending: Vec<u8>,
    emitted: usize,
    fed: Ghost<Seq<u8>>,
    flushed: Ghost<Seq<u8>>,
}

/// What one incremental scan step yields.
pub enum FileStep {
    /// Body bytes safe to hand out; more input is needed.
    Flushed(Vec<u8>),
    /// The body is complete: the last body bytes, whether this was the
    /// final part, and the over-read bytes to give back to the stream.
    Done { flush: Vec<u8>, finished: bool, restore: Vec<u8> },
    /// The body passed its ceiling.
    TooBig,
}

impl FileBodyScan {
    /// All bytes fed to the scan so far.
    pub closed spec fn fed_of(&self) -> Seq<u8> {
        self.fed@
    }

    /// All bytes handed out so far.
    pub closed spec fn flushed_of(&self) -> Seq<u8> {
        self.flushed@
    }

    /// How many bytes the state retains.
    pub closed spec fn pending_len(&self) -> nat {
        self.pending@.len()
    }

    /// The scan invariant against a boundary and a ceiling: what was
    /// handed out plus what is retained is what was fed, nothing handed
    /// out reaches into a boundary terminator, and the handed-out count
    /// stays within one byte of the ceiling.
    pub closed spec fn wf(&self, b: Seq<u8>, ceiling: int) -> bool {
        &&& self.flushed@ + self.pending@ == self.fed@
        &&& self.emitted == self.flushed@.len()
        &&& (forall|j: int|
            0 <= j < self.flushed@.len() ==> !could_match(self.fed@, body_term(b), j))
        &&& self.emitted <= ceiling
    }

    /// A fresh scan.
    pub fn new() -> (r: FileBodyScan)
        ensures
            forall|b: Seq<u8>, ceiling: int| 0 <= ceiling ==> #[trigger] r.wf(b, ceiling),
            r.fed_of() == Seq::<u8>::empty(),
            r.flushed_of() == Seq::<u8>::empty(),
    {
        let r = FileBodyScan {
            pending: Vec::new(),
            emitted: 0,
            fed: Ghost(Seq::empty()),
            flushed: Ghost(Seq::empty()),
        };
        proof {
            assert forall|b: Seq<u8>, ceiling: int| 0 <= ceiling implies #[trigger] r.wf(
                b,
                ceiling,
            ) by {
                assert(r.flushed@ + r.pending@ =~= r.fed@);
            }
        }
        r
    }

    /// Feeds one chunk and scans: hands out every byte that can no
    /// longer be part of the boundary terminator, finishes when the
    /// terminator and its continuation marker are in view, and reports
    /// the ceiling as soon as the body must pass it. The handed-out
    /// spans concatenate to exactly the body `body_scan` names.
    #[verifier::rlimit(80)]
    pub fn step(&mut self, chunk: &[u8], boundary: &Vec<u8>, ceiling: usize) -> (r: FileStep)
        requires
            old(self).wf(boundary@, ceiling as int),
        ensures
            ({
                let fed2 = old(self).fed_of() + chunk@;
                let term = body_term(boundary@);
                &&& (r matches FileStep::Flushed(flush) ==> {
                    &&& final(self).wf(boundary@, ceiling as int)
                    &&& final(self).fed_of() == fed2
                    &&& final(self).flushed_of() == old(self).flushed_of() + flush@
                    &&& final(self).pending_len() < term.len() + 4
                })
                &&& (r matches FileStep::Done { flush, finished, restore } ==> ({
                    &&& body_scan(fed2, boundary@, ceiling as int) matches MpBody::Done {
                        body,
                        finished: f2,
                        rest,
                    } && old(self).flushed_of() + flush@ == body && finished == f2 && (!finished
                        ==> restore@ == rest) && (finished ==> restore@ == Seq::<u8>::empty())
                }))
                &&& (r is TooBig ==> (forall|future: Seq<u8>|
                    body_scan(fed2 + future, boundary@, ceiling as int) is TooBig))
            }),
    {
        let ghost fed0 = self.fed@;
        let ghost flushed0 = self.flushed@;
        let mut term: Vec<u8> = Vec::new();
        term.push(13u8);
        term.push(10u8);
        term.push(45u8);
        term.push(45u8);
        let mut bm = vstd::slice::slice_to_vec(boundary.as_slice());
        term.append(&mut bm);
        proof {
            assert(term@ =~= body_term(boundary@));
        }
        let tlen: usize = term.len();
        let mut em: Vec<u8> = Vec::new();
        em.push(45u8);
        em.push(45u8);
        em.push(13u8);
        em.push(10u8);
        assert(em@ =~= endmark());

        let mut chunk_m = vstd::slice::slice_to_vec(chunk);
        self.pending.append(&mut chunk_m);
        proof {
            self.fed@ = fed0 + chunk@;
            assert(self.flushed@ + self.pending@ =~= self.fed@);
        }
        let ghost fed2 = self.fed@;
        let ghost pend2 = self.pending@;
        let pendlen: usize = self.pending.len();
        proof {
            // nothing already handed out can begin a terminator, in the
            // extended bytes either
            assert forall|j: int| 0 <= j < flushed0.len() implies !could_match(fed2, term@, j) by {
                if could_match(fed2, term@, j) {
                    assert forall|jj: int| 0 <= jj < term@.len() && j + jj < fed0.len() implies
                        fed0[j + jj] == term@[jj] by {
                        assert(fed2[j + jj] == term@[jj]);
                        assert(fed0[j + jj] == fed2[j + jj]);
                    }
                    assert(could_match(fed0, term@, j));
                }
            }
        }
        match find_window(self.pending.as_slice(), term.as_slice()) {
            Some(q) => {
                proof {
                    lemma_find_from_props(self.pending@, term@, 0);
                    assert(match_at(self.pending@, term@, q as int));
                    // the first terminator in fed2 stands at flushed0.len() + q
                    assert forall|j: int| 0 <= j < flushed0.len() + q implies !match_at(
                        fed2,
                        term@,
                        j,
                    ) by {
                        if j >= flushed0.len() {
                            if match_at(fed2, term@, j) {
                                assert forall|jj: int| 0 <= jj < term@.len() implies self.pending@[
                                    j - flushed0.len() + jj] == term@[jj] by {
                                    assert(fed2[j + jj] == self.pending@[j - flushed0.len() + jj]);
                                }
                                assert(match_at(self.pending@, term@, j - flushed0.len()));
                            }
                        } else {
                            if match_at(fed2, term@, j) {
                                assert(could_match(fed2, term@, j));
                            }
                        }
                    }
                    assert forall|jj: int| 0 <= jj < term@.len() implies fed2[flushed0.len() + q
                        + jj] == term@[jj] by {
                        assert(self.pending@[q + jj] == term@[jj]);
                        assert(fed2[flushed0.len() + q + jj] == self.pending@[q + jj]);
                    }
                    assert(match_at(fed2, term@, flushed0.len() + q));
                    lemma_find_from_exact(fed2, term@, 0, flushed0.len() + q);
                }
                if q > ceiling || self.emitted > ceiling - q {
                    proof {
                        lemma_scan_toobig_match(fed2, term@, flushed0.len() + q, ceiling as int);
                    }
                    return FileStep::TooBig;
                }
                if pendlen - (q + tlen) >= 4 {
                    let after = &self.pending.as_slice()[q + tlen..q + tlen + 4];
                    proof {
                        assert(after@ =~= fed2.subrange(
                            flushed0.len() + q + tlen,
                            flushed0.len() + q + tlen + 4,
                        ));
                    }
                    let flush = vstd::slice::slice_to_vec(&self.pending.as_slice()[0..q]);
                    proof {
                        assert(flush@ == self.pending@.take(q as int));
                        assert(flushed0 + flush@ =~= fed2.take(flushed0.len() + q));
                    }
                    if slice_eq(after, em.as_slice()) {
                        let done = FileStep::Done { flush, finished: true, restore: Vec::new() };
                        proof {
                            assert(fed2.take(flushed0.len() + q) =~= body_scan(
                                fed2,
                                boundary@,
                                ceiling as int,
                            )->Done_body);
                        }
                        return done;
                    } else {
                        let restore = vstd::slice::slice_to_vec(
                            &self.pending.as_slice()[q + tlen + 2..pendlen],
                        );
                        proof {
                            assert(restore@ == self.pending@.skip(q + tlen + 2));
                            assert(restore@ =~= fed2.skip(flushed0.len() + q + tlen + 2));
                            assert(fed2.take(flushed0.len() + q) =~= body_scan(
                                fed2,
                                boundary@,
                                ceiling as int,
                            )->Done_body);
                        }
                        return FileStep::Done { flush, finished: false, restore };
                    }
                }
                // terminator candidate found but its continuation is not
                // in view yet: hand out the body bytes before it
                let flush = vstd::slice::slice_to_vec(&self.pending.as_slice()[0..q]);
                let rest = vstd::slice::slice_to_vec(&self.pending.as_slice()[q..pendlen]);
                proof {
                    assert(flush@ == self.pending@.take(q as int));
                    assert(rest@ == self.pending@.skip(q as int));
                }
                self.pending = rest;
                self.emitted = self.emitted + q;
                proof {
                    self.flushed@ = flushed0 + flush@;
                    assert(self.flushed@ + self.pending@ =~= fed2);
                    assert(self.pending@.len() == pendlen - q < term@.len() + 4);
                    assert forall|j: int| 0 <= j < self.flushed@.len() implies !could_match(
                        fed2,
                        term@,
                        j,
                    ) by {
                        if j >= flushed0.len() && could_match(fed2, term@, j) {
                            let p = j - flushed0.len();
                            assert forall|jj: int| 0 <= jj < term@.len() implies pend2[p + jj]
                                == term@[jj] by {
                                assert(fed2[j + jj] == term@[jj]);
                                assert(fed2[j + jj] == pend2[p + jj]);
                            }
                            assert(match_at(pend2, term@, p));
                        }
                    }
                }
                FileStep::Flushed(flush)
            },
            None => {
                proof {
                    lemma_find_from_props(pend2, term@, 0);
                    assert forall|j: int| 0 <= j implies !match_at(fed2, term@, j) by {
                        if match_at(fed2, term@, j) {
                            if j >= flushed0.len() {
                                assert forall|jj: int| 0 <= jj < term@.len() implies pend2[j
                                    - flushed0.len() + jj] == term@[jj] by {
                                    assert(fed2[j + jj] == pend2[j - flushed0.len() + jj]);
                                }
                                assert(match_at(pend2, term@, j - flushed0.len()));
                            } else {
                                assert(could_match(fed2, term@, j));
                            }
                        }
                    }
                    if find_sub(fed2, term@) is Some {
                        lemma_find_from_props(fed2, term@, 0);
                    }
                    assert(find_sub(fed2, term@) is None);
                }
                let over = pendlen > tlen && (pendlen - tlen > ceiling || self.emitted > ceiling - (
                pendlen - tlen));
                if over {
                    proof {
                        lemma_scan_toobig_none(fed2, term@, ceiling as int);
                    }
                    return FileStep::TooBig;
                }
                if pendlen > tlen {
                    let cut: usize = pendlen - tlen;
                    let flush = vstd::slice::slice_to_vec(&self.pending.as_slice()[0..cut]);
                    let rest = vstd::slice::slice_to_vec(&self.pending.as_slice()[cut..pendlen]);
                    proof {
                        assert(flush@ == self.pending@.take(cut as int));
                        assert(rest@ == self.pending@.skip(cut as int));
                    }
                    self.pending = rest;
                    self.emitted = self.emitted + cut;
                    proof {
                        self.flushed@ = flushed0 + flush@;
                        assert(self.flushed@ + self.pending@ =~= fed2);
                        assert forall|j: int| 0 <= j < self.flushed@.len() implies !could_match(
                            fed2,
                            term@,
                            j,
                        ) by {
                            if j >= flushed0.len() && could_match(fed2, term@, j) {
                                let p = j - flushed0.len();
                                assert forall|jj: int| 0 <= jj < term@.len() implies pend2[p + jj]
                                    == term@[jj] by {
                                    assert(fed2[j + jj] == term@[jj]);
                                    assert(fed2[j + jj] == pend2[p + jj]);
                                }
                                assert(match_at(pend2, term@, p));
                            }
                        }
                    }
                    FileStep::Flushed(flush)
                } else {
                    let flush: Vec<u8> = Vec::new();
                    proof {
                        assert(flushed0 + flush@ =~= flushed0);
                        assert(self.flushed@ + self.pending@ =~= fed2);
                    }
                    FileStep::Flushed(flush)
                }
            },
        }
    }
}

/// Once the first terminator passes the ceiling, every extension of the
/// bytes is over the ceiling too.
proof fn lemma_scan_toobig_match(fed2: Seq<u8>, term: Seq<u8>, q: int, ceiling: int)
    requires
        find_sub(fed2, term) == Some(q),
        q > ceiling,
    ensures
        forall|future: Seq<u8>|
            body_scan_is_toobig(#[trigger] (fed2 + future), term, ceiling),
{
    assert forall|future: Seq<u8>| body_scan_is_toobig(#[trigger] (fed2 + future), term, ceiling)
        by {
        let whole = fed2 + future;
        assert(fed2 =~= whole.take(fed2.len() as int));
        lemma_find_take_some(whole, fed2.len() as int, term);
    }
}

/// When the fed bytes already pass the ceiling plus a terminator with no
/// terminator in sight, every extension is over the ceiling too.
proof fn lemma_scan_toobig_none(fed2: Seq<u8>, term: Seq<u8>, ceiling: int)
    requires
        find_sub(fed2, term) is None,
        fed2.len() > ceiling + term.len(),
    ensures
        forall|future: Seq<u8>|
            body_scan_is_toobig(#[trigger] (fed2 + future), term, ceiling),
{
    assert forall|future: Seq<u8>| body_scan_is_toobig(#[trigger] (fed2 + future), term, ceiling)
        by {
        let whole = fed2 + future;
        assert(fed2 =~= whole.take(fed2.len() as int));
        lemma_find_take_none(whole, fed2.len() as int, term);
        if find_sub(whole, term) is Some {
            lemma_find_from_props(whole, term, 0);
        }
    }
}

/// `body_scan` reports the ceiling, phrased over the terminator bytes.
pub open spec fn body_scan_is_toobig(s: Seq<u8>, term: Seq<u8>, ceiling: int) -> bool {
    match find_sub(s, term) {
        None => s.len() > ceiling + term.len(),
        Some(q) => q > ceiling,
    }
}

/// What one streaming file-body call yields to the driver.
pub enum FileStreamStep {
    /// Body bytes to write out; call again for more.
    More(Vec<u8>),
    /// The body is over: the last body bytes and whether this was the
    /// final part. Over-read bytes are already back on the stream.
    Finished { flush: Vec<u8>, finished: bool },
}

impl<'a, S: AbstractStream> MultipartParser<'a, S> {
    /// Runs one step of a streaming file-body scan: reads one chunk,
    /// hands out the body bytes that are certain, and finishes when the
    /// boundary terminator is classified, restoring the next part's
    /// bytes. The concatenation of everything handed out is exactly the
    /// body `body_scan` names, and between calls the scan state retains
    /// fewer bytes than the terminator length plus four.
    pub fn parse_file_stream_step(&mut self, field_name: &String, scan: &mut FileBodyScan) -> (r:
        Result<FileStreamStep, FormFieldError>)
        requires
            old(self).wf(),
            old(scan).wf(
                old(self).bnd(),
                mp_file_ceiling(
                    old(self).fc(),
                    str_bytes(field_name@),
                    old(self).st().chunk_size(),
                ),
            ),
        ensures
            final(self).wf(),
            final(self).bnd() == old(self).bnd(),
            final(self).fc() == old(self).fc(),
            final(self).first_done() == old(self).first_done(),
            final(self).st().chunk_size() == old(self).st().chunk_size(),
            final(self).st().written() == old(self).st().written(),
            ({
                let c = old(self).st().content();
                let b = old(self).bnd();
                let ceiling = mp_file_ceiling(
                    old(self).fc(),
                    str_bytes(field_name@),
                    old(self).st().chunk_size(),
                );
                &&& (r matches Ok(FileStreamStep::More(f)) ==> ({
                    let n = final(scan).fed_of().len() - old(scan).fed_of().len();
                    &&& final(scan).wf(b, ceiling)
                    &&& 0 < n <= c.len()
                    &&& final(scan).fed_of() == old(scan).fed_of() + c.take(n as int)
                    &&& final(scan).flushed_of() == old(scan).flushed_of() + f@
                    &&& final(scan).pending_len() < body_term(b).len() + 4
                    &&& final(self).st().content() == c.skip(n as int)
                    &&& final(self).allow() == old(self).allow()
                }))
                &&& (r matches Ok(FileStreamStep::Finished { flush, finished }) ==> (exists|
                    n: int,
                |
                    {
                        &&& 0 < n <= c.len()
                        &&& #[trigger] body_scan(
                            old(scan).fed_of() + c.take(n),
                            b,
                            ceiling,
                        ) matches MpBody::Done { body, finished: f2, rest } && old(scan).flushed_of() + flush@ == body && finished == f2 && (!finished ==> final(self).st().content() == rest + c.skip(n))
                    }) && final(self).allow())
                &&& (r matches Err(e) ==> match e {
                    FormFieldError::MaxFileSizeExceed(nm) => nm@ == field_name@,
                    FormFieldError::Others(f, _, _) => f is None && c.len() == 0,
                    _ => false,
                })
            }),
    {
        let ghost c = self.stream.content();
        let buffer_size = self.stream.buffer_size();
        let max_file_size = self.form_constraints.max_size_for_file(field_name, buffer_size);
        proof {
            assert(max_file_size as int == mp_file_ceiling(
                old(self).fc(),
                str_bytes(field_name@),
                old(self).st().chunk_size(),
            ));
        }
        let chunk = match self.stream.read_chunk() {
            Ok(chunk) => chunk,
            Err(e) => {
                return Err(FormFieldError::Others(None, e.description(), true));
            },
        };
        let ghost n = chunk@.len() as int;
        proof {
            assert(chunk@ == c.take(n));
        }
        match scan.step(chunk.as_slice(), &self.boundary, max_file_size) {
            FileStep::Flushed(f) => Ok(FileStreamStep::More(f)),
            FileStep::TooBig => Err(FormFieldError::MaxFileSizeExceed(field_name.clone())),
            FileStep::Done { flush, finished, restore } => {
                if !finished {
                    let _restore_result = self.stream.restore_payload(restore.as_slice());
                    proof {
                        assert(self.stream.content() =~= restore@ + c.skip(n));
                    }
                }
                self.allow_next_header_read = true;
                proof {
                    let ceiling = mp_file_ceiling(
                        old(self).fc(),
                        str_bytes(field_name@),
                        old(self).st().chunk_size(),
                    );
                    assert(old(scan).fed_of() + c.take(n) == old(scan).fed_of() + chunk@);
                    assert(body_scan(
                        old(scan).fed_of() + c.take(n),
                        old(self).bnd(),
                        ceiling,
                    ) is Done);
                }
                Ok(FileStreamStep::Finished { flush, finished })
            },
        }
    }
}

} // verus!
