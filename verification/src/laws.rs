//! The properties the decoders are built around, stated on their own so
//! a reader finds them in one place. Each is proved from the public
//! contracts and spec functions of the modules it names.

use vstd::prelude::*;
use crate::forms::FormConstraints;
use crate::frame::{frame_bytes, parse_frame, FrameParse, lemma_frame_roundtrip};
use crate::multipart::{mp_run, body_scan, MpBody, header_scan, body_term};
use crate::parser::{head_split_at, spec_request_headers, spec_head_method, spec_head_target,
    spec_head_version};
use crate::scan::{find_sub, lemma_find_from_props, match_at};
use crate::stream::AbstractStream;

verus! {

/// Decoding a multipart body depends only on the bytes the stream
/// carries and its chunk size, never on how reads split them: two
/// streams that carry the same bytes decode to the same field and file
/// maps, or fail the same way.
pub proof fn law_multipart_chunking_independent<S1: AbstractStream, S2: AbstractStream>(
    s1: S1,
    s2: S2,
    b: Seq<u8>,
    fc: FormConstraints,
)
    requires
        s1.content() == s2.content(),
        s1.chunk_size() == s2.chunk_size(),
    ensures
        mp_run(Seq::empty(), Seq::empty(), s1.content(), b, true, fc, s1.chunk_size()) == mp_run(
            Seq::empty(),
            Seq::empty(),
            s2.content(),
            b,
            true,
            fc,
            s2.chunk_size(),
        ),
{
}

/// Reading a request head is idempotent under partial delivery: two
/// streams that carry the same bytes yield the same parsed method, path,
/// version and headers, and leave the same remainder for the body.
pub proof fn law_head_chunking_independent<S1: AbstractStream, S2: AbstractStream>(
    s1: S1,
    s2: S2,
    max_count: int,
)
    requires
        s1.content() == s2.content(),
    ensures
        head_split_at(s1.content()) == head_split_at(s2.content()),
        forall|p: int|
            spec_request_headers(#[trigger] s1.content().take(p), max_count)
                == spec_request_headers(
                s2.content().take(p),
                max_count,
            ) && spec_head_method(s1.content().take(p)) == spec_head_method(s2.content().take(p))
                && spec_head_target(s1.content().take(p)) == spec_head_target(
                s2.content().take(p),
            ) && spec_head_version(s1.content().take(p)) == spec_head_version(
                s2.content().take(p),
            ),
{
}

/// Two frames written back to back parse back in order: the first parse
/// consumes exactly the first frame's bytes and leaves exactly the
/// second frame's, whose parse then consumes everything, leaving nothing
/// behind.
pub proof fn law_frames_back_to_back(
    fin1: u8,
    op1: u8,
    p1: Seq<u8>,
    fin2: u8,
    op2: u8,
    p2: Seq<u8>,
    max: nat,
)
    requires
        fin1 <= 1,
        op1 <= 15,
        fin2 <= 1,
        op2 <= 15,
        p1.len() <= max,
        p2.len() <= max,
        p1.len() < 0x10000000000000000,
        p2.len() < 0x10000000000000000,
    ensures
        ({
            let k = seq![0u8, 0u8, 0u8, 0u8];
            let w1 = frame_bytes(fin1, op1, false, k, p1);
            let w2 = frame_bytes(fin2, op2, false, k, p2);
            let s = w1 + w2;
            &&& parse_frame(s, max) == (FrameParse::Done {
                fin: fin1,
                op: op1,
                payload: p1,
                consumed: w1.len() as int,
            })
            &&& s.skip(w1.len() as int) == w2
            &&& parse_frame(w2, max) == (FrameParse::Done {
                fin: fin2,
                op: op2,
                payload: p2,
                consumed: w2.len() as int,
            })
            &&& w2.skip(w2.len() as int).len() == 0
        }),
{
    let k = seq![0u8, 0u8, 0u8, 0u8];
    let w1 = frame_bytes(fin1, op1, false, k, p1);
    let w2 = frame_bytes(fin2, op2, false, k, p2);
    lemma_frame_roundtrip(fin1, op1, false, k, p1, w2, max);
    assert((w1 + w2).skip(w1.len() as int) =~= w2);
    lemma_frame_roundtrip(fin2, op2, false, k, p2, Seq::empty(), max);
    assert(w2 + Seq::<u8>::empty() =~= w2);
}

/// A part body exactly at its ceiling is accepted and one byte over it
/// is rejected: when the boundary terminator stands at `q`, the captured
/// body has `q` bytes, and the scan reports the ceiling only for
/// `q > ceiling`.
pub proof fn law_body_ceiling_exact(s: Seq<u8>, b: Seq<u8>, ceiling: int, q: int)
    requires
        find_sub(s, body_term(b)) == Some(q),
        s.len() >= q + body_term(b).len() + 4,
    ensures
        q <= ceiling ==> (body_scan(s, b, ceiling) matches MpBody::Done { body, .. } && body
            == s.take(q) && body.len() == q),
        q > ceiling ==> body_scan(s, b, ceiling) is TooBig,
{
    lemma_find_from_props(s, body_term(b), 0);
    assert(match_at(s, body_term(b), q));
}

/// A part header whose terminator ends exactly at the ceiling is
/// accepted; one that ends one byte past it is rejected.
pub proof fn law_header_ceiling_exact(s: Seq<u8>, hmax: int, p: int)
    requires
        find_sub(s, crate::parser::head_marker()) == Some(p),
    ensures
        p + 4 <= hmax && !crate::multipart::part_header_of(s.take(p)).failed ==> header_scan(
            s,
            hmax,
        ) is Header,
        p + 4 > hmax ==> header_scan(s, hmax) is TooBig,
{
}

/// A declared urlencoded body length exactly at the ceiling is accepted
/// and one byte over it is rejected, before any body byte is read.
pub proof fn law_urlencoded_ceiling_exact(cl: int, maxb: int)
    ensures
        cl == maxb ==> !(cl > maxb),
        cl == maxb + 1 ==> cl > maxb,
{
}

} // verus!
