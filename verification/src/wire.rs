//! The model of the NDN TLV wire format that the encoder and decoder are held to.
use vstd::prelude::*;

use crate::error::NdnError;
use crate::tlv::TlvType;
use vstd::seq_lib::lemma_flatten_concat;

verus! {

/// What an encoder is: the bytes of its buffer and the position of the next write.
pub struct WriteState {
    pub bytes: Seq<u8>,
    pub pos: int,
}

impl WriteState {
    pub open spec fn well_formed(self) -> bool {
        0 <= self.pos <= self.bytes.len() <= usize::MAX
    }
}

/// What a decoder is: the bytes it reads and the position of the next read.
pub struct ReadState {
    pub bytes: Seq<u8>,
    pub pos: int,
}

impl ReadState {
    pub open spec fn well_formed(self) -> bool {
        0 <= self.pos <= self.bytes.len() <= usize::MAX
    }
}

/// `bytes` with `chunk` written over it from `pos` on.
pub open spec fn splice(bytes: Seq<u8>, pos: int, chunk: Seq<u8>) -> Seq<u8> {
    bytes.subrange(0, pos) + chunk + bytes.subrange(pos + chunk.len(), bytes.len() as int)
}

/// The effect of a run of writes, one chunk after the other, on an encoder.
/// A chunk that does not fit in what is left of the buffer stops the run, with
/// `BufferTooSmall`, and leaves the encoder as the chunks before it left it.
pub open spec fn run_writes(st: WriteState, writes: Seq<Seq<u8>>) -> (WriteState, Option<NdnError>)
    decreases writes.len(),
{
    if writes.len() == 0 {
        (st, None)
    } else {
        let w = writes[0];
        if st.bytes.len() - st.pos < w.len() {
            (
                st,
                Some(
                    NdnError::BufferTooSmall {
                        need: w.len() as usize,
                        have: (st.bytes.len() - st.pos) as usize,
                    },
                ),
            )
        } else {
            run_writes(
                WriteState { bytes: splice(st.bytes, st.pos, w), pos: st.pos + w.len() },
                writes.drop_first(),
            )
        }
    }
}

/// An operation that left encoder `pre` as `post` with result `r` did exactly
/// the run of writes `writes`.
pub open spec fn performs(
    pre: WriteState,
    post: WriteState,
    writes: Seq<Seq<u8>>,
    r: Result<(), NdnError>,
) -> bool {
    let (st, e) = run_writes(pre, writes);
    &&& post == st
    &&& match r {
        Ok(_) => e is None,
        Err(x) => e == Some(x),
    }
}

/// Big-endian bytes of a 16-bit number.
pub open spec fn be16(v: u16) -> Seq<u8> {
    seq![(v >> 8u16) as u8, v as u8]
}

/// Big-endian bytes of a 32-bit number.
pub open spec fn be32(v: u32) -> Seq<u8> {
    seq![(v >> 24u32) as u8, (v >> 16u32) as u8, (v >> 8u32) as u8, v as u8]
}

/// Big-endian bytes of a 64-bit number.
pub open spec fn be64(v: u64) -> Seq<u8> {
    seq![
        (v >> 56u64) as u8,
        (v >> 48u64) as u8,
        (v >> 40u64) as u8,
        (v >> 32u64) as u8,
        (v >> 24u64) as u8,
        (v >> 16u64) as u8,
        (v >> 8u64) as u8,
        v as u8,
    ]
}

/// The 16-bit number with these big-endian bytes.
pub open spec fn from_be16(b0: u8, b1: u8) -> u16 {
    ((b0 as u16) << 8u16) | (b1 as u16)
}

/// The 32-bit number with these big-endian bytes.
pub open spec fn from_be32(b0: u8, b1: u8, b2: u8, b3: u8) -> u32 {
    ((b0 as u32) << 24u32) | ((b1 as u32) << 16u32) | ((b2 as u32) << 8u32) | (b3 as u32)
}

/// The 64-bit number with these big-endian bytes.
pub open spec fn from_be64(b0: u8, b1: u8, b2: u8, b3: u8, b4: u8, b5: u8, b6: u8, b7: u8) -> u64 {
    ((b0 as u64) << 56u64) | ((b1 as u64) << 48u64) | ((b2 as u64) << 40u64) | ((b3 as u64)
        << 32u64) | ((b4 as u64) << 24u64) | ((b5 as u64) << 16u64) | ((b6 as u64) << 8u64) | (
    b7 as u64)
}

/// The writes of a variable-length number: one byte up to 252; otherwise a
/// marker byte (0xFD, 0xFE, 0xFF) and then the number in 2, 4 or 8 big-endian bytes.
pub open spec fn varint_writes(v: u64) -> Seq<Seq<u8>> {
    if v <= 252 {
        seq![seq![v as u8]]
    } else if v <= 0xFFFF {
        seq![seq![0xFDu8], be16(v as u16)]
    } else if v <= 0xFFFF_FFFF {
        seq![seq![0xFEu8], be32(v as u32)]
    } else {
        seq![seq![0xFFu8], be64(v)]
    }
}

/// The bytes of a variable-length number.
pub open spec fn varint_bytes(v: u64) -> Seq<u8> {
    varint_writes(v).flatten()
}

/// The writes of a TLV block with type number `code` and value `value`.
pub open spec fn tlv_writes(code: u64, value: Seq<u8>) -> Seq<Seq<u8>> {
    varint_writes(code) + varint_writes(value.len() as u64) + seq![value]
}

/// The bytes of a TLV block with type number `code` and value `value`.
pub open spec fn tlv_bytes(code: u64, value: Seq<u8>) -> Seq<u8> {
    tlv_writes(code, value).flatten()
}

/// Reading a variable-length number at `pos`: the position after the read and
/// the number or the error. A marker byte is consumed even when the bytes that
/// should follow it are missing.
pub open spec fn read_varint(s: Seq<u8>, pos: int) -> (int, Result<u64, NdnError>) {
    if pos >= s.len() {
        (pos, Err(NdnError::InvalidTlv { message: "Unexpected end of buffer" }))
    } else {
        let b = s[pos];
        let p = pos + 1;
        if b <= 252 {
            (p, Ok(b as u64))
        } else if b == 0xFD {
            if s.len() - p < 2 {
                (p, Err(NdnError::InvalidTlv { message: "Incomplete varint" }))
            } else {
                (p + 2, Ok(from_be16(s[p], s[p + 1]) as u64))
            }
        } else if b == 0xFE {
            if s.len() - p < 4 {
                (p, Err(NdnError::InvalidTlv { message: "Incomplete varint" }))
            } else {
                (p + 4, Ok(from_be32(s[p], s[p + 1], s[p + 2], s[p + 3]) as u64))
            }
        } else {
            if s.len() - p < 8 {
                (p, Err(NdnError::InvalidTlv { message: "Incomplete varint" }))
            } else {
                (
                    p + 8,
                    Ok(
                        from_be64(
                            s[p],
                            s[p + 1],
                            s[p + 2],
                            s[p + 3],
                            s[p + 4],
                            s[p + 5],
                            s[p + 6],
                            s[p + 7],
                        ),
                    ),
                )
            }
        }
    }
}

/// The TLV type that a type number read from the wire stands for. A number
/// that is the code of no known type is refused: one beyond 32 bits as out of
/// range, any other as unsupported.
pub open spec fn parse_type_number(code: u64) -> Result<TlvType, NdnError> {
    if code > u32::MAX {
        Err(NdnError::InvalidTlv { message: "TLV type number out of range" })
    } else {
        TlvType::parse_code(code as u32)
    }
}

/// Reading a TLV block at `pos`: the position after the read and the block's
/// type and value, or the error.
pub open spec fn read_tlv(s: Seq<u8>, pos: int) -> (int, Result<(TlvType, Seq<u8>), NdnError>) {
    let (p1, r1) = read_varint(s, pos);
    match r1 {
        Err(e) => (p1, Err(e)),
        Ok(code) => match parse_type_number(code) {
            Err(e) => (p1, Err(e)),
            Ok(t) => {
                let (p2, r2) = read_varint(s, p1);
                match r2 {
                    Err(e) => (p2, Err(e)),
                    Ok(len) => {
                        if len > s.len() - p2 {
                            (p2, Err(NdnError::InvalidTlv { message: "TLV length exceeds buffer" }))
                        } else {
                            (p2 + len, Ok((t, s.subrange(p2, p2 + len))))
                        }
                    },
                }
            },
        },
    }
}

/// The type of the TLV block at `pos`, read without moving.
pub open spec fn peek_type(s: Seq<u8>, pos: int) -> Result<TlvType, NdnError> {
    match read_varint(s, pos).1 {
        Err(e) => Err(e),
        Ok(code) => parse_type_number(code),
    }
}

// ---------------------------------------------------------------------------
// Lemmas on runs of writes
// ---------------------------------------------------------------------------

/// A single write either fails whole or lands whole.
pub proof fn lemma_performs_single(st: WriteState, w: Seq<u8>)
    ensures
        run_writes(st, seq![w]) == (if st.bytes.len() - st.pos < w.len() {
            (
                st,
                Some(
                    NdnError::BufferTooSmall {
                        need: w.len() as usize,
                        have: (st.bytes.len() - st.pos) as usize,
                    },
                ),
            )
        } else {
            (WriteState { bytes: splice(st.bytes, st.pos, w), pos: st.pos + w.len() }, None)
        }),
{
    reveal_with_fuel(run_writes, 2);
    if !(st.bytes.len() - st.pos < w.len()) {
        assert(seq![w].drop_first() =~= Seq::<Seq<u8>>::empty());
    }
}

/// Running `a + b` is running `a`, then, if `a` went through, `b`.
pub proof fn lemma_run_writes_concat(st: WriteState, a: Seq<Seq<u8>>, b: Seq<Seq<u8>>)
    ensures
        run_writes(st, a + b) == (if run_writes(st, a).1 is None {
            run_writes(run_writes(st, a).0, b)
        } else {
            run_writes(st, a)
        }),
    decreases a.len(),
{
    if a.len() == 0 {
        assert(a + b =~= b);
    } else {
        assert((a + b)[0] == a[0]);
        assert((a + b).drop_first() =~= a.drop_first() + b);
        let w = a[0];
        if !(st.bytes.len() - st.pos < w.len()) {
            lemma_run_writes_concat(
                WriteState { bytes: splice(st.bytes, st.pos, w), pos: st.pos + w.len() },
                a.drop_first(),
                b,
            );
        }
    }
}

/// A run whose first part fails is that failure.
pub proof fn lemma_performs_first(st: WriteState, a: Seq<Seq<u8>>, b: Seq<Seq<u8>>)
    requires
        run_writes(st, a).1 is Some,
    ensures
        run_writes(st, a + b) == run_writes(st, a),
{
    lemma_run_writes_concat(st, a, b);
}

/// Doing `a` from `s0` to `s1`, then `b` from `s1` to `s2`, is doing `a + b`.
pub proof fn lemma_performs_then(
    s0: WriteState,
    s1: WriteState,
    s2: WriteState,
    a: Seq<Seq<u8>>,
    b: Seq<Seq<u8>>,
    r: Result<(), NdnError>,
)
    requires
        run_writes(s0, a) == (s1, Option::<NdnError>::None),
        performs(s1, s2, b, r),
    ensures
        performs(s0, s2, a + b, r),
{
    lemma_run_writes_concat(s0, a, b);
}

/// Reading a variable-length number at `pos` is reading it at the front of what follows `pos`.
pub proof fn lemma_read_varint_shift(s: Seq<u8>, pos: int)
    requires
        0 <= pos <= s.len(),
    ensures
        read_varint(s.subrange(pos, s.len() as int), 0).1 == read_varint(s, pos).1,
{
}

/// A run of writes goes through exactly when all its bytes fit after the write
/// position; it then puts them there, one after the other, and moves past them.
pub proof fn lemma_run_writes_ok(st: WriteState, writes: Seq<Seq<u8>>)
    requires
        0 <= st.pos <= st.bytes.len(),
    ensures
        (run_writes(st, writes).1 is None) == (st.pos + writes.flatten().len() <= st.bytes.len()),
        run_writes(st, writes).1 is None ==> run_writes(st, writes).0 == (WriteState {
            bytes: splice(st.bytes, st.pos, writes.flatten()),
            pos: st.pos + writes.flatten().len(),
        }),
        run_writes(st, writes).0.bytes.len() == st.bytes.len(),
        st.pos <= run_writes(st, writes).0.pos <= st.bytes.len(),
        run_writes(st, writes).0.bytes.subrange(0, st.pos) == st.bytes.subrange(0, st.pos),
    decreases writes.len(),
{
    if writes.len() > 0 {
        let w = writes[0];
        let rest = writes.drop_first();
        assert(writes.flatten() == w + rest.flatten());
        if !(st.bytes.len() - st.pos < w.len()) {
            let st1 = WriteState { bytes: splice(st.bytes, st.pos, w), pos: st.pos + w.len() };
            lemma_run_writes_ok(st1, rest);
            assert(st1.bytes.subrange(0, st.pos) =~= st.bytes.subrange(0, st.pos));
            assert(run_writes(st, writes).0.bytes.subrange(0, st.pos) =~= run_writes(
                st1,
                rest,
            ).0.bytes.subrange(0, st1.pos).subrange(0, st.pos));
            if run_writes(st1, rest).1 is None {
                assert(splice(st1.bytes, st1.pos, rest.flatten()) =~= splice(
                    st.bytes,
                    st.pos,
                    writes.flatten(),
                ));
            }
        }
    } else {
        assert(splice(st.bytes, st.pos, writes.flatten()) =~= st.bytes);
    }
}

pub proof fn lemma_be16_roundtrip(v: u16)
    ensures
        from_be16((v >> 8u16) as u8, v as u8) == v,
{
    assert(from_be16((v >> 8u16) as u8, v as u8) == v) by (bit_vector);
}

pub proof fn lemma_be32_roundtrip(v: u32)
    ensures
        from_be32((v >> 24u32) as u8, (v >> 16u32) as u8, (v >> 8u32) as u8, v as u8) == v,
{
    assert(from_be32((v >> 24u32) as u8, (v >> 16u32) as u8, (v >> 8u32) as u8, v as u8) == v)
        by (bit_vector);
}

pub proof fn lemma_be64_roundtrip(v: u64)
    ensures
        from_be64(
            (v >> 56u64) as u8,
            (v >> 48u64) as u8,
            (v >> 40u64) as u8,
            (v >> 32u64) as u8,
            (v >> 24u64) as u8,
            (v >> 16u64) as u8,
            (v >> 8u64) as u8,
            v as u8,
        ) == v,
{
    assert(from_be64(
        (v >> 56u64) as u8,
        (v >> 48u64) as u8,
        (v >> 40u64) as u8,
        (v >> 32u64) as u8,
        (v >> 24u64) as u8,
        (v >> 16u64) as u8,
        (v >> 8u64) as u8,
        v as u8,
    ) == v) by (bit_vector);
}

/// The bytes of a variable-length number, laid out.
pub proof fn lemma_varint_bytes(v: u64)
    ensures
        varint_bytes(v) == (if v <= 252 {
            seq![v as u8]
        } else if v <= 0xFFFF {
            seq![0xFDu8] + be16(v as u16)
        } else if v <= 0xFFFF_FFFF {
            seq![0xFEu8] + be32(v as u32)
        } else {
            seq![0xFFu8] + be64(v)
        }),
        varint_bytes(v).len() == (if v <= 252 {
            1int
        } else if v <= 0xFFFF {
            3int
        } else if v <= 0xFFFF_FFFF {
            5int
        } else {
            9int
        }),
{
    reveal_with_fuel(Seq::flatten, 3);
    if v <= 252 {
        assert(varint_bytes(v) =~= seq![v as u8]);
    } else if v <= 0xFFFF {
        assert(varint_bytes(v) =~= seq![0xFDu8] + be16(v as u16));
    } else if v <= 0xFFFF_FFFF {
        assert(varint_bytes(v) =~= seq![0xFEu8] + be32(v as u32));
    } else {
        assert(varint_bytes(v) =~= seq![0xFFu8] + be64(v));
    }
}

/// Where the bytes of `v` stand at `pos`, reading a variable-length number there gives `v`
/// and moves past them.
pub proof fn lemma_read_varint_bytes(v: u64, s: Seq<u8>, pos: int)
    requires
        0 <= pos,
        pos + varint_bytes(v).len() <= s.len(),
        s.subrange(pos, pos + varint_bytes(v).len()) == varint_bytes(v),
    ensures
        read_varint(s, pos) == (pos + varint_bytes(v).len(), Ok::<u64, NdnError>(v)),
{
    lemma_varint_bytes(v);
    let vb = varint_bytes(v);
    let k = vb.len();
    assert forall|i: int| 0 <= i < k implies s[pos + i] == #[trigger] vb[i] by {
        assert(s.subrange(pos, pos + k)[i] == s[pos + i]);
    }
    if v <= 252 {
        assert(vb[0] == v as u8);
    } else if v <= 0xFFFF {
        let b = be16(v as u16);
        assert(vb[0] == 0xFDu8);
        assert(vb[1] == b[0] && vb[2] == b[1]);
        lemma_be16_roundtrip(v as u16);
    } else if v <= 0xFFFF_FFFF {
        let b = be32(v as u32);
        assert(vb[0] == 0xFEu8);
        assert(vb[1] == b[0] && vb[2] == b[1] && vb[3] == b[2] && vb[4] == b[3]);
        lemma_be32_roundtrip(v as u32);
    } else {
        let b = be64(v);
        assert(vb[0] == 0xFFu8);
        assert(vb[1] == b[0] && vb[2] == b[1] && vb[3] == b[2] && vb[4] == b[3]);
        assert(vb[5] == b[4] && vb[6] == b[5] && vb[7] == b[6] && vb[8] == b[7]);
        lemma_be64_roundtrip(v);
    }
}

/// The bytes of a TLV block, laid out.
pub proof fn lemma_tlv_bytes(code: u64, value: Seq<u8>)
    ensures
        tlv_bytes(code, value) == varint_bytes(code) + varint_bytes(value.len() as u64) + value,
{
    let a = varint_writes(code);
    let b = varint_writes(value.len() as u64);
    lemma_flatten_concat(a + b, seq![value]);
    lemma_flatten_concat(a, b);
    assert(seq![value].flatten() =~= value) by {
        reveal_with_fuel(Seq::flatten, 2);
    }
}

/// Where the bytes of a TLV block of a known type stand at `pos`, reading a TLV
/// block there gives its type and value and moves past it.
pub proof fn lemma_read_tlv_bytes(t: TlvType, value: Seq<u8>, s: Seq<u8>, pos: int)
    requires
        0 <= pos,
        value.len() <= usize::MAX,
        pos + tlv_bytes(t.code() as u64, value).len() <= s.len(),
        s.subrange(pos, pos + tlv_bytes(t.code() as u64, value).len()) == tlv_bytes(
            t.code() as u64,
            value,
        ),
    ensures
        read_tlv(s, pos) == (
            pos + tlv_bytes(t.code() as u64, value).len(),
            Ok::<(TlvType, Seq<u8>), NdnError>((t, value)),
        ),
{
    let code = t.code() as u64;
    let bt = varint_bytes(code);
    let bl = varint_bytes(value.len() as u64);
    lemma_tlv_bytes(code, value);
    let all = tlv_bytes(code, value);
    assert(s.subrange(pos, pos + bt.len()) =~= bt) by {
        assert(s.subrange(pos, pos + bt.len()) =~= all.subrange(0, bt.len() as int));
    }
    lemma_read_varint_bytes(code, s, pos);
    let p1 = pos + bt.len();
    assert(s.subrange(p1, p1 + bl.len()) =~= bl) by {
        assert(s.subrange(p1, p1 + bl.len()) =~= all.subrange(
            bt.len() as int,
            (bt.len() + bl.len()) as int,
        ));
    }
    lemma_read_varint_bytes(value.len() as u64, s, p1);
    let p2 = p1 + bl.len();
    assert(TlvType::from_code(t.code()) == Some(t));
    assert(parse_type_number(code) == Ok::<TlvType, NdnError>(t));
    assert(s.subrange(p2, p2 + value.len()) =~= value) by {
        assert(s.subrange(p2, p2 + value.len()) =~= all.subrange(
            (bt.len() + bl.len()) as int,
            all.len() as int,
        ));
    }
}

/// A read stays within the bytes; one that goes through moves forward.
pub proof fn lemma_read_varint_moves(s: Seq<u8>, pos: int)
    requires
        0 <= pos <= s.len(),
    ensures
        pos <= read_varint(s, pos).0 <= s.len(),
        read_varint(s, pos).1 is Ok ==> pos < read_varint(s, pos).0,
{
}

/// A TLV read stays within the bytes; one that goes through moves forward.
pub proof fn lemma_read_tlv_moves(s: Seq<u8>, pos: int)
    requires
        0 <= pos <= s.len(),
    ensures
        pos <= read_tlv(s, pos).0 <= s.len(),
        read_tlv(s, pos).1 is Ok ==> pos < read_tlv(s, pos).0,
{
    lemma_read_varint_moves(s, pos);
    let p1 = read_varint(s, pos).0;
    lemma_read_varint_moves(s, p1);
}

} // verus!
