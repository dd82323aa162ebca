//! WebSocket frame codec: bit-level reader and writer for the RFC 6455
//! frame format (FIN, opcode, mask bit, three-tier payload length,
//! masking key, payload), with pushback of over-read trailing bytes so
//! frames can be decoded back to back from one shared stream.

use vstd::prelude::*;
use crate::num::{be_val, be_bytes, be16_value, be64_value, be16_bytes, be64_bytes, p256,
    lemma_be_bytes_len, lemma_be_bytes_unique, lemma_be_val_bound, lemma_be_val_of_bytes};
use crate::stream::AbstractStream;

verus! {

/// One WebSocket protocol unit: FIN bit, 4-bit opcode, and the raw
/// payload (already unmasked on read, not yet masked on write).
#[derive(Debug)]
pub struct Frame {
    pub fin: u8,
    pub op_code: u8,
    pub payload: Vec<u8>,
}

/// Failure while a frame is read.
#[derive(Clone, Copy, Debug, PartialEq, Eq, Structural)]
pub enum FrameError {
    /// The declared payload length passes the allowed maximum.
    PayloadSizeExceed,
    /// The stream ran out before the frame was complete.
    ConnectionClosed,
}

/// XORs payload byte `i` with masking-key byte `i mod 4`.
pub open spec fn mask_seq(p: Seq<u8>, k: Seq<u8>) -> Seq<u8> {
    Seq::new(p.len(), |i: int| p[i] ^ k[i % 4])
}

/// Masking is an involution: applying the same key twice gives the
/// payload back.
pub proof fn lemma_mask_roundtrip(p: Seq<u8>, k: Seq<u8>)
    requires
        k.len() == 4,
    ensures
        mask_seq(mask_seq(p, k), k) == p,
{
    assert forall|i: int| 0 <= i < p.len() implies mask_seq(mask_seq(p, k), k)[i] == p[i] by {
        let a = p[i];
        let b = k[i % 4];
        assert((a ^ b) ^ b == a) by (bit_vector);
    }
    assert(mask_seq(mask_seq(p, k), k) =~= p);
}

/// What one parse attempt on a byte sequence yields.
pub enum FrameParse {
    /// More bytes are needed before anything is decided.
    Incomplete,
    /// The resolved payload length passes the allowed maximum.
    TooBig,
    /// A complete frame: its fields and how many bytes it occupied.
    Done { fin: u8, op: u8, payload: Seq<u8>, consumed: int },
}

/// Decodes the first frame of `s` under a payload ceiling, byte-exact
/// with RFC 6455: two header bytes, a 0/2/8-byte extended length, a
/// 4-byte key when the mask bit is set, then the payload.
pub open spec fn parse_frame(s: Seq<u8>, max: nat) -> FrameParse {
    if s.len() < 2 {
        FrameParse::Incomplete
    } else {
        let len7 = s[1] & 0x7f;
        let ext: int = if len7 < 126 {
            0
        } else if len7 == 126 {
            2
        } else {
            8
        };
        if s.len() < 2 + ext {
            FrameParse::Incomplete
        } else {
            let plen: nat = if len7 < 126 {
                len7 as nat
            } else {
                be_val(s.subrange(2, 2 + ext))
            };
            let klen: int = if (s[1] >> 7) == 1 {
                4
            } else {
                0
            };
            if s.len() < 2 + ext + klen {
                FrameParse::Incomplete
            } else if plen > max {
                FrameParse::TooBig
            } else if s.len() < 2 + ext + klen + plen {
                FrameParse::Incomplete
            } else {
                let key = s.subrange(2 + ext, 2 + ext + klen);
                let raw = s.subrange(2 + ext + klen, 2 + ext + klen + plen);
                FrameParse::Done {
                    fin: s[0] >> 7,
                    op: s[0] & 0x0f,
                    payload: if klen == 4 {
                        mask_seq(raw, key)
                    } else {
                        raw
                    },
                    consumed: 2 + ext + klen + plen,
                }
            }
        }
    }
}

/// Encodes a frame: FIN and opcode packed into the first byte, the
/// three-tier length scheme, then the key and the masked payload when
/// `mask` is set.
pub open spec fn frame_bytes(fin: u8, op: u8, mask: bool, key: Seq<u8>, payload: Seq<u8>) -> Seq<
    u8,
> {
    let first = (fin << 7) | op;
    let mbit: u8 = if mask {
        0x80
    } else {
        0
    };
    let len_part: Seq<u8> = if payload.len() < 126 {
        seq![(payload.len() as u8) | mbit]
    } else if payload.len() < 65536 {
        seq![126u8 | mbit] + be_bytes(payload.len(), 2)
    } else {
        seq![127u8 | mbit] + be_bytes(payload.len(), 8)
    };
    let key_part: Seq<u8> = if mask {
        key
    } else {
        Seq::empty()
    };
    let body: Seq<u8> = if mask {
        mask_seq(payload, key)
    } else {
        payload
    };
    seq![first] + len_part + key_part + body
}

/// Converts the FIN bit to an unsigned number.
pub fn fin_bit_to_u8(byte: &u8) -> (r: u8)
    ensures
        r == *byte >> 7,
{
    *byte >> 7
}

/// Extracts the 4-bit opcode.
pub fn opcode_bit_to_u8(byte: &u8) -> (r: u8)
    ensures
        r == *byte & 0x0f,
{
    *byte & 0x0f
}

/// Extracts the mask bit.
pub fn bit_mask_to_u8(byte: &u8) -> (r: u8)
    ensures
        r == *byte >> 7,
{
    *byte >> 7
}

/// Extracts the 7-bit payload length field.
pub fn payload_length_to_u8(byte: &u8) -> (r: u8)
    ensures
        r == *byte & 0x7f,
{
    *byte & 0x7f
}

/// Reads a 2-byte big-endian extended payload length.
pub fn payload_length_to_u16(bytes: &[u8]) -> (r: Result<u16, FrameError>)
    ensures
        r is Ok <==> bytes@.len() == 2,
        r matches Ok(v) ==> v == be_val(bytes@),
{
    if bytes.len() != 2 {
        return Err(FrameError::ConnectionClosed);
    }
    let v = be16_value(bytes[0], bytes[1]);
    proof {
        assert(seq![bytes@[0], bytes@[1]] =~= bytes@);
    }
    Ok(v)
}

/// Reads an 8-byte big-endian extended payload length.
pub fn payload_length_to_u64(bytes: &[u8]) -> (r: Result<u64, FrameError>)
    ensures
        r is Ok <==> bytes@.len() == 8,
        r matches Ok(v) ==> v == be_val(bytes@),
{
    if bytes.len() != 8 {
        return Err(FrameError::ConnectionClosed);
    }
    Ok(be64_value(bytes))
}

/// Reads one frame off the stream, unmasking the payload when the mask
/// bit is set, and pushes any over-read trailing bytes back so the next
/// read sees exactly the next frame's bytes.
///
/// The outcome and every field are a function of the stream's bytes and
/// the ceiling alone.
pub fn read_frame<S: AbstractStream>(stream: &mut S, max_payload_size: u64) -> (r: Result<
    Frame,
    FrameError,
>)
    requires
        old(stream).wf(),
        max_payload_size as int + 14 <= usize::MAX as int,
    ensures
        final(stream).wf(),
        final(stream).chunk_size() == old(stream).chunk_size(),
        final(stream).written() == old(stream).written(),
        ({
            let c = old(stream).content();
            let pf = parse_frame(c, max_payload_size as nat);
            &&& (r is Ok <==> pf is Done)
            &&& (r matches Ok(f) ==> pf matches FrameParse::Done { fin, op, payload, consumed }
                && f.fin == fin && f.op_code == op && f.payload@ == payload
                && final(stream).content() == c.skip(consumed) && final(stream).pushback()
                == final(stream).content().take(final(stream).pushback().len() as int)
                && final(stream).pushback().len() <= final(stream).content().len())
            &&& (r matches Err(e) ==> match e {
                FrameError::PayloadSizeExceed => pf is TooBig,
                FrameError::ConnectionClosed => pf is Incomplete,
            })
        }),
{
    let ghost c = old(stream).content();
    let mut buffer: Vec<u8> = Vec::new();
    proof {
        assert(buffer@ =~= c.take(0));
        assert(stream.content() =~= c.skip(0));
    }
    loop
        invariant
            stream.wf(),
            stream.chunk_size() == old(stream).chunk_size(),
            stream.written() == old(stream).written(),
            c == old(stream).content(),
            max_payload_size as int + 14 <= usize::MAX as int,
            buffer@.len() <= c.len(),
            buffer@ == c.take(buffer@.len() as int),
            stream.content() == c.skip(buffer@.len() as int),
            buffer@.len() > 0 ==> stream.pushback().len() == 0,
        decreases c.len() + 1 - buffer@.len(),
    {
        let ghost blen = buffer@.len() as int;
        let blen_e: usize = buffer.len();
        let mut need_more: bool = true;
        if blen_e >= 2 {
            assert(buffer@[0] == c[0] && buffer@[1] == c[1]);
            let len7 = buffer[1] & 0x7f;
            let ext: usize = if len7 < 126 {
                0
            } else if len7 == 126 {
                2
            } else {
                8
            };
            if blen_e >= 2 + ext {
                let plen64: u64 = if len7 < 126 {
                    len7 as u64
                } else if len7 == 126 {
                    let v = be16_value(buffer[2], buffer[3]);
                    proof {
                        assert(seq![buffer@[2], buffer@[3]] =~= c.subrange(2, 4));
                    }
                    v as u64
                } else {
                    let v = be64_value(&buffer.as_slice()[2..10]);
                    proof {
                        assert(buffer@.subrange(2, 10) =~= c.subrange(2, 10));
                    }
                    v
                };
                proof {
                    if len7 >= 126 {
                        lemma_be_val_bound(c.subrange(2, 2 + ext as int));
                    }
                }
                let masked = (buffer[1] >> 7) == 1;
                let klen: usize = if masked {
                    4
                } else {
                    0
                };
                if blen_e >= 2 + ext + klen {
                    if plen64 > max_payload_size {
                        return Err(FrameError::PayloadSizeExceed);
                    }
                    let plen: usize = plen64 as usize;
                    let total: usize = 2 + ext + klen + plen;
                    if blen_e >= total {
                        // the frame is complete in the buffer
                        let key_start: usize = 2 + ext;
                        let body_start: usize = 2 + ext + klen;
                        let mut payload: Vec<u8> = Vec::new();
                        let ghost key = c.subrange(key_start as int, body_start as int);
                        let ghost raw = c.subrange(body_start as int, total as int);
                        if masked {
                            let mut i: usize = 0;
                            while i < plen
                                invariant
                                    0 <= i <= plen,
                                    masked,
                                    klen == 4,
                                    body_start == 2 + ext + klen,
                                    key_start == 2 + ext,
                                    body_start + plen == total <= blen_e,
                                    blen_e == buffer@.len() <= c.len(),
                                    buffer@ == c.take(blen_e as int),
                                    key == c.subrange(key_start as int, body_start as int),
                                    raw == c.subrange(body_start as int, total as int),
                                    payload@.len() == i,
                                    forall|j: int|
                                        0 <= j < i ==> #[trigger] payload@[j] == raw[j] ^ key[j
                                            % 4],
                                decreases plen - i,
                            {
                                let ki: usize = i % 4;
                                let b = buffer[body_start + i] ^ buffer[key_start + ki];
                                proof {
                                    assert(buffer@[body_start + i] == raw[i as int]);
                                    assert(buffer@[key_start + ki] == key[i as int % 4]);
                                }
                                payload.push(b);
                                i += 1;
                            }
                            proof {
                                assert(payload@ =~= mask_seq(raw, key));
                            }
                        } else {
                            let end: usize = total;
                            payload = vstd::slice::slice_to_vec(
                                &buffer.as_slice()[body_start..end],
                            );
                            proof {
                                assert(payload@ == buffer@.subrange(
                                    body_start as int,
                                    total as int,
                                ));
                                assert(buffer@.subrange(body_start as int, total as int) =~= raw);
                            }
                        }
                        let rest = &buffer.as_slice()[total..blen_e];
                        assert(rest@ == buffer@.skip(total as int));
                        let _restore_result = stream.restore_payload(rest);
                        proof {
                            assert(c.take(blen_e as int).skip(total as int) + c.skip(
                                blen_e as int,
                            ) =~= c.skip(total as int));
                        }
                        let fin = buffer[0] >> 7;
                        let op_code = buffer[0] & 0x0f;
                        return Ok(Frame { fin, op_code, payload });
                    }
                }
            }
        }
        match stream.read_chunk() {
            Ok(chunk) => {
                let ghost ch = chunk@;
                let mut chunk_m = chunk;
                buffer.append(&mut chunk_m);
                proof {
                    assert(buffer@ == c.take(blen) + ch);
                    assert(ch == c.skip(blen).take(ch.len() as int));
                    assert forall|k: int| 0 <= k < buffer@.len() implies buffer@[k] == c.take(
                        blen + ch.len(),
                    )[k] by {
                        if k < blen {
                            assert(buffer@[k] == c.take(blen)[k]);
                        } else {
                            assert(buffer@[k] == ch[k - blen]);
                            assert(ch[k - blen] == c.skip(blen)[k - blen]);
                        }
                    }
                    assert(buffer@ =~= c.take(blen + ch.len()));
                }
            },
            Err(_) => {
                proof {
                    assert(c.take(blen) =~= c);
                }
                return Err(FrameError::ConnectionClosed);
            },
        }
    }
}

/// Builds the wire bytes of a frame with an explicit masking key.
pub fn build_with_key(frame: &Frame, mask: bool, key: &[u8]) -> (r: Vec<u8>)
    requires
        key@.len() == 4,
    ensures
        r@ == frame_bytes(frame.fin, frame.op_code, mask, key@, frame.payload@),
{
    let mut buffer: Vec<u8> = Vec::new();
    let first_byte = (frame.fin << 7) | frame.op_code;
    buffer.push(first_byte);

    let actual_payload_length: usize = frame.payload.len();
    let mbit: u8 = if mask {
        0x80
    } else {
        0
    };
    if actual_payload_length < 126 {
        buffer.push((actual_payload_length as u8) | mbit);
    } else if actual_payload_length < 65536 {
        buffer.push(126u8 | mbit);
        let mut len_bytes = be16_bytes(actual_payload_length as u16);
        proof {
            lemma_be_bytes_unique(len_bytes@);
        }
        buffer.append(&mut len_bytes);
    } else {
        buffer.push(127u8 | mbit);
        let mut len_bytes = be64_bytes(actual_payload_length as u64);
        proof {
            lemma_be_bytes_unique(len_bytes@);
        }
        buffer.append(&mut len_bytes);
    }

    let ghost lp = if frame.payload@.len() < 126 {
        seq![(frame.payload@.len() as u8) | mbit]
    } else if frame.payload@.len() < 65536 {
        seq![126u8 | mbit] + be_bytes(frame.payload@.len(), 2)
    } else {
        seq![127u8 | mbit] + be_bytes(frame.payload@.len(), 8)
    };
    proof {
        assert(buffer@ =~= seq![first_byte] + lp);
    }
    if mask {
        buffer.push(key[0]);
        buffer.push(key[1]);
        buffer.push(key[2]);
        buffer.push(key[3]);
        let ghost mid = buffer@;
        proof {
            assert(mid =~= seq![first_byte] + lp + key@);
        }
        let plen: usize = frame.payload.len();
        let mut i: usize = 0;
        while i < plen
            invariant
                0 <= i <= plen,
                plen == frame.payload@.len(),
                key@.len() == 4,
                buffer@.len() == mid.len() + i,
                buffer@.take(mid.len() as int) == mid,
                forall|j: int|
                    0 <= j < i ==> #[trigger] buffer@[mid.len() + j] == frame.payload@[j] ^ key@[j
                        % 4],
            decreases plen - i,
        {
            let ki: usize = i % 4;
            buffer.push(frame.payload[i] ^ key[ki]);
            proof {
                assert(buffer@.take(mid.len() as int) =~= mid);
            }
            i += 1;
        }
        proof {
            let target = frame_bytes(frame.fin, frame.op_code, mask, key@, frame.payload@);
            assert(target =~= mid + mask_seq(frame.payload@, key@));
            assert forall|j: int| 0 <= j < buffer@.len() implies buffer@[j] == target[j] by {
                if j < mid.len() {
                    assert(buffer@.take(mid.len() as int)[j] == mid[j]);
                } else {
                    assert(buffer@[mid.len() + (j - mid.len())] == frame.payload@[j - mid.len()]
                        ^ key@[(j - mid.len()) % 4]);
                    assert(target[j] == mask_seq(frame.payload@, key@)[j - mid.len()]);
                }
            }
            assert(buffer@ =~= target);
        }
    } else {
        let ghost mid = buffer@;
        let mut body = vstd::slice::slice_to_vec(frame.payload.as_slice());
        buffer.append(&mut body);
        proof {
            let target = frame_bytes(frame.fin, frame.op_code, mask, key@, frame.payload@);
            assert(target =~= mid + frame.payload@);
            assert(buffer@ =~= target);
        }
    }
    buffer
}

/// Relies on `rand::random`: a fresh 4-byte masking key drawn from the
/// thread's generator; nothing is promised of its value.
#[verifier::external_body]
fn random_mask_key() -> (r: [u8; 4])
    ensures
        r@.len() == 4,
{
    rand::random::<[u8; 4]>()
}

/// Builds the wire bytes of a frame; a masked frame draws a fresh random
/// 4-byte key.
pub fn build_opt(frame: &Frame, mask: bool) -> (r: Vec<u8>)
    ensures
        !mask ==> r@ == frame_bytes(frame.fin, frame.op_code, false, seq![0u8, 0u8, 0u8, 0u8],
            frame.payload@,
        ),
        mask ==> exists|k: Seq<u8>|
            k.len() == 4 && r@ == frame_bytes(frame.fin, frame.op_code, true, k, frame.payload@),
{
    if mask {
        let key = random_mask_key();
        let r = build_with_key(frame, true, key.as_slice());
        proof {
            let kv = key@;
            assert(kv.len() == 4 && r@ == frame_bytes(
                frame.fin,
                frame.op_code,
                true,
                kv,
                frame.payload@,
            ));
        }
        r
    } else {
        let mut zero: Vec<u8> = Vec::new();
        zero.push(0u8);
        zero.push(0u8);
        zero.push(0u8);
        zero.push(0u8);
        assert(zero@ =~= seq![0u8, 0u8, 0u8, 0u8]);
        build_with_key(frame, false, zero.as_slice())
    }
}

/// Builds the wire bytes of a server-to-client frame, which by
/// convention is unmasked.
pub fn build(frame: &Frame) -> (r: Vec<u8>)
    ensures
        r@ == frame_bytes(frame.fin, frame.op_code, false, seq![0u8, 0u8, 0u8, 0u8],
            frame.payload@,
        ),
{
    build_opt(frame, false)
}

/// Length round trip: the bytes a frame builds parse back to the same
/// FIN, opcode and payload, consuming exactly the built bytes, whatever
/// follows them in the stream. This holds for every payload length the
/// three-tier scheme can carry and for masked and unmasked frames alike.
pub proof fn lemma_frame_roundtrip(
    fin: u8,
    op: u8,
    mask: bool,
    key: Seq<u8>,
    payload: Seq<u8>,
    rest: Seq<u8>,
    max: nat,
)
    requires
        fin <= 1,
        op <= 15,
        key.len() == 4,
        payload.len() <= max,
        payload.len() < 0x10000000000000000,
    ensures
        parse_frame(frame_bytes(fin, op, mask, key, payload) + rest, max)
            == (FrameParse::Done {
            fin,
            op,
            payload,
            consumed: frame_bytes(fin, op, mask, key, payload).len() as int,
        }),
{
    reveal_with_fuel(p256, 9);
    let w = frame_bytes(fin, op, mask, key, payload);
    let s = w + rest;
    let first = (fin << 7) | op;
    let mbit: u8 = if mask {
        0x80
    } else {
        0
    };
    assert((first >> 7) == fin && (first & 0x0f) == op) by (bit_vector)
        requires
            first == ((fin << 7) | op),
            fin <= 1,
            op <= 15,
    ;
    let lp: Seq<u8> = if payload.len() < 126 {
        seq![(payload.len() as u8) | mbit]
    } else if payload.len() < 65536 {
        seq![126u8 | mbit] + be_bytes(payload.len(), 2)
    } else {
        seq![127u8 | mbit] + be_bytes(payload.len(), 8)
    };
    let kp: Seq<u8> = if mask {
        key
    } else {
        Seq::empty()
    };
    let body: Seq<u8> = if mask {
        mask_seq(payload, key)
    } else {
        payload
    };
    assert(w == seq![first] + lp + kp + body);
    let ext: int = if payload.len() < 126 {
        0
    } else if payload.len() < 65536 {
        2
    } else {
        8
    };
    if payload.len() >= 126 {
        lemma_be_bytes_len(payload.len(), ext as nat);
    }
    assert(lp.len() == 1 + ext);
    assert(w.len() == 2 + ext + kp.len() + payload.len());
    assert(s[0] == first);
    assert(s[1] == lp[0]);

    // the second byte recovers the mask bit and the 7-bit length field
    let b1 = lp[0];
    if payload.len() < 126 {
        let pl8 = payload.len() as u8;
        assert((b1 & 0x7f) == pl8 && ((b1 >> 7) == 1 <==> mbit == 0x80)) by (bit_vector)
            requires
                b1 == (pl8 | mbit),
                pl8 < 126,
                mbit == 0x80 || mbit == 0,
        ;
        assert((s[1] & 0x7f) < 126);
        assert((pl8 as nat) == payload.len());
    } else if payload.len() < 65536 {
        assert((b1 & 0x7f) == 126 && ((b1 >> 7) == 1 <==> mbit == 0x80)) by (bit_vector)
            requires
                b1 == (126u8 | mbit),
                mbit == 0x80 || mbit == 0,
        ;
        assert(s.subrange(2, 2 + ext) =~= be_bytes(payload.len(), 2)) by {
            assert forall|j: int| 0 <= j < 2 implies s[2 + j] == be_bytes(payload.len(), 2)[j] by {
                assert(s[2 + j] == lp[1 + j]);
            }
        }
        assert(p256(2) == 65536);
        lemma_be_val_of_bytes(payload.len(), 2);
    } else {
        assert((b1 & 0x7f) == 127 && ((b1 >> 7) == 1 <==> mbit == 0x80)) by (bit_vector)
            requires
                b1 == (127u8 | mbit),
                mbit == 0x80 || mbit == 0,
        ;
        assert(s.subrange(2, 2 + ext) =~= be_bytes(payload.len(), 8)) by {
            assert forall|j: int| 0 <= j < 8 implies s[2 + j] == be_bytes(payload.len(), 8)[j] by {
                assert(s[2 + j] == lp[1 + j]);
            }
        }
        assert(p256(8) == 0x10000000000000000);
        lemma_be_val_of_bytes(payload.len(), 8);
    }

    let klen: int = if mask {
        4
    } else {
        0
    };
    assert(kp.len() == klen);
    if mask {
        assert(s.subrange(2 + ext, 2 + ext + klen) =~= key) by {
            assert forall|j: int| 0 <= j < klen implies s[2 + ext + j] == key[j] by {
                assert(s[2 + ext + j] == kp[j]);
            }
        }
    }
    assert(s.subrange(2 + ext + klen, 2 + ext + klen + payload.len() as int) =~= body) by {
        assert forall|j: int| 0 <= j < payload.len() implies s[2 + ext + klen + j] == body[j] by {
            assert(s[2 + ext + klen + j] == body[j]);
        }
    }
    if mask {
        lemma_mask_roundtrip(payload, key);
    }
}

} // verus!
