use vstd::prelude::*;

use crate::error::NdnError;
use crate::wire::{
    be16, be32, be64, from_be16, from_be32, from_be64, lemma_performs_first, lemma_performs_single,
    lemma_performs_then, lemma_read_varint_shift, parse_type_number, peek_type, performs, read_tlv, read_varint, splice,
    tlv_writes, varint_writes, ReadState, WriteState,
};
use vstd::slice::{slice_subrange, slice_to_vec};

verus! {

/// NDN TLV types according to the NDN packet format specification.
#[derive(Debug, Clone, Copy, PartialEq, Eq, Structural)]
pub enum TlvType {
    Interest,
    Data,
    Name,
    GenericNameComponent,
    Nonce,
    InterestLifetime,
    MustBeFresh,
    ForwardingHint,
    MetaInfo,
    Content,
    SignatureInfo,
    SignatureValue,
    CanBePrefix,
    HopLimit,
    ApplicationParameters,
}

impl TlvType {
    /// The type number that stands for this type on the wire.
    pub open spec fn code(self) -> u32 {
        match self {
            TlvType::Interest => 0x05,
            TlvType::Data => 0x06,
            TlvType::Name => 0x07,
            TlvType::GenericNameComponent => 0x08,
            TlvType::Nonce => 0x0a,
            TlvType::InterestLifetime => 0x0c,
            TlvType::MustBeFresh => 0x12,
            TlvType::ForwardingHint => 0x1e,
            TlvType::MetaInfo => 0x14,
            TlvType::Content => 0x15,
            TlvType::SignatureInfo => 0x16,
            TlvType::SignatureValue => 0x17,
            TlvType::CanBePrefix => 0x21,
            TlvType::HopLimit => 0x22,
            TlvType::ApplicationParameters => 0x24,
        }
    }

    /// The type whose number is `value`, if there is one.
    pub open spec fn from_code(value: u32) -> Option<TlvType> {
        if value == 0x05 {
            Some(TlvType::Interest)
        } else if value == 0x06 {
            Some(TlvType::Data)
        } else if value == 0x07 {
            Some(TlvType::Name)
        } else if value == 0x08 {
            Some(TlvType::GenericNameComponent)
        } else if value == 0x0a {
            Some(TlvType::Nonce)
        } else if value == 0x0c {
            Some(TlvType::InterestLifetime)
        } else if value == 0x12 {
            Some(TlvType::MustBeFresh)
        } else if value == 0x1e {
            Some(TlvType::ForwardingHint)
        } else if value == 0x14 {
            Some(TlvType::MetaInfo)
        } else if value == 0x15 {
            Some(TlvType::Content)
        } else if value == 0x16 {
            Some(TlvType::SignatureInfo)
        } else if value == 0x17 {
            Some(TlvType::SignatureValue)
        } else if value == 0x21 {
            Some(TlvType::CanBePrefix)
        } else if value == 0x22 {
            Some(TlvType::HopLimit)
        } else if value == 0x24 {
            Some(TlvType::ApplicationParameters)
        } else {
            None
        }
    }

    /// What `from_u32` gives for `value`.
    pub open spec fn parse_code(value: u32) -> Result<TlvType, NdnError> {
        match TlvType::from_code(value) {
            Some(t) => Ok(t),
            None => Err(NdnError::UnsupportedTlvType { tlv_type: value }),
        }
    }

    /// Convert a type number to a `TlvType`; an unknown number is refused.
    pub fn from_u32(value: u32) -> (r: Result<Self, NdnError>)
        ensures
            r == TlvType::parse_code(value),
    {
        match value {
            0x05 => Ok(TlvType::Interest),
            0x06 => Ok(TlvType::Data),
            0x07 => Ok(TlvType::Name),
            0x08 => Ok(TlvType::GenericNameComponent),
            0x0a => Ok(TlvType::Nonce),
            0x0c => Ok(TlvType::InterestLifetime),
            0x12 => Ok(TlvType::MustBeFresh),
            0x1e => Ok(TlvType::ForwardingHint),
            0x14 => Ok(TlvType::MetaInfo),
            0x15 => Ok(TlvType::Content),
            0x16 => Ok(TlvType::SignatureInfo),
            0x17 => Ok(TlvType::SignatureValue),
            0x21 => Ok(TlvType::CanBePrefix),
            0x22 => Ok(TlvType::HopLimit),
            0x24 => Ok(TlvType::ApplicationParameters),
            _ => Err(NdnError::unsupported_tlv_type(value)),
        }
    }

    /// The type number of this type.
    pub fn to_u32(self) -> (r: u32)
        ensures
            r == self.code(),
    {
        match self {
            TlvType::Interest => 0x05,
            TlvType::Data => 0x06,
            TlvType::Name => 0x07,
            TlvType::GenericNameComponent => 0x08,
            TlvType::Nonce => 0x0a,
            TlvType::InterestLifetime => 0x0c,
            TlvType::MustBeFresh => 0x12,
            TlvType::ForwardingHint => 0x1e,
            TlvType::MetaInfo => 0x14,
            TlvType::Content => 0x15,
            TlvType::SignatureInfo => 0x16,
            TlvType::SignatureValue => 0x17,
            TlvType::CanBePrefix => 0x21,
            TlvType::HopLimit => 0x22,
            TlvType::ApplicationParameters => 0x24,
        }
    }
}

/// Writes NDN TLV blocks into a caller's buffer, from the front.
pub struct TlvEncoder<'a> {
    buffer: &'a mut [u8],
    position: usize,
}

impl<'a> View for TlvEncoder<'a> {
    type V = WriteState;

    closed spec fn view(&self) -> WriteState {
        WriteState { bytes: self.buffer@, pos: self.position as int }
    }
}

impl<'a> TlvEncoder<'a> {
    #[verifier::type_invariant]
    spec fn position_in_buffer(self) -> bool {
        self.position <= self.buffer@.len()
    }

    pub fn new(buffer: &'a mut [u8]) -> (enc: Self)
        ensures
            enc@ == (WriteState { bytes: old(buffer)@, pos: 0 }),
    {
        TlvEncoder { buffer, position: 0 }
    }

    /// The number of bytes written so far.
    pub fn position(&self) -> (r: usize)
        ensures
            r == self@.pos,
    {
        self.position
    }

    /// The number of bytes that are still free.
    pub fn remaining(&self) -> (r: usize)
        ensures
            r == self@.bytes.len() - self@.pos,
    {
        proof {
            use_type_invariant(self);
        }
        self.buffer.len() - self.position
    }

    /// A copy of the bytes written so far.
    pub fn written(&self) -> (r: Vec<u8>)
        ensures
            r@ == self@.bytes.subrange(0, self@.pos),
    {
        proof {
            use_type_invariant(self);
        }
        slice_to_vec(slice_subrange(self.buffer, 0, self.position))
    }

    /// Encode a variable-length number according to the NDN TLV specification.
    pub fn encode_varint(&mut self, value: u64) -> (r: Result<(), NdnError>)
        ensures
            performs(old(self)@, final(self)@, varint_writes(value), r),
    {
        if value <= 252 {
            self.write_u8(value as u8)
        } else if value <= 0xFFFF {
            let ghost s0 = self@;
            let r1 = self.write_u8(0xFD);
            if r1.is_err() {
                proof {
                    lemma_performs_first(s0, seq![seq![0xFDu8]], seq![be16(value as u16)]);
                    assert(varint_writes(value) =~= seq![seq![0xFDu8]] + seq![be16(value as u16)]);
                }
                return r1;
            }
            let ghost s1 = self@;
            let r2 = self.write_u16(value as u16);
            proof {
                lemma_performs_then(s0, s1, self@, seq![seq![0xFDu8]], seq![be16(value as u16)], r2);
                assert(varint_writes(value) =~= seq![seq![0xFDu8]] + seq![be16(value as u16)]);
            }
            r2
        } else if value <= 0xFFFF_FFFF {
            let ghost s0 = self@;
            let r1 = self.write_u8(0xFE);
            if r1.is_err() {
                proof {
                    lemma_performs_first(s0, seq![seq![0xFEu8]], seq![be32(value as u32)]);
                    assert(varint_writes(value) =~= seq![seq![0xFEu8]] + seq![be32(value as u32)]);
                }
                return r1;
            }
            let ghost s1 = self@;
            let r2 = self.write_u32(value as u32);
            proof {
                lemma_performs_then(s0, s1, self@, seq![seq![0xFEu8]], seq![be32(value as u32)], r2);
                assert(varint_writes(value) =~= seq![seq![0xFEu8]] + seq![be32(value as u32)]);
            }
            r2
        } else {
            let ghost s0 = self@;
            let r1 = self.write_u8(0xFF);
            if r1.is_err() {
                proof {
                    lemma_performs_first(s0, seq![seq![0xFFu8]], seq![be64(value)]);
                    assert(varint_writes(value) =~= seq![seq![0xFFu8]] + seq![be64(value)]);
                }
                return r1;
            }
            let ghost s1 = self@;
            let r2 = self.write_u64(value);
            proof {
                lemma_performs_then(s0, s1, self@, seq![seq![0xFFu8]], seq![be64(value)], r2);
                assert(varint_writes(value) =~= seq![seq![0xFFu8]] + seq![be64(value)]);
            }
            r2
        }
    }

    /// Encode a TLV block: the type number, the length, then the value.
    pub fn encode_tlv(&mut self, tlv_type: TlvType, value: &[u8]) -> (r: Result<(), NdnError>)
        ensures
            performs(old(self)@, final(self)@, tlv_writes(tlv_type.code() as u64, value@), r),
    {
        let ghost s0 = self@;
        let ghost wt = varint_writes(tlv_type.code() as u64);
        let ghost wl = varint_writes(value.len() as u64);
        let ghost wv = seq![value@];
        let r1 = self.encode_varint(tlv_type.to_u32() as u64);
        if r1.is_err() {
            proof {
                lemma_performs_first(s0, wt, wl + wv);
                assert(wt + (wl + wv) =~= tlv_writes(tlv_type.code() as u64, value@));
            }
            return r1;
        }
        let ghost s1 = self@;
        let r2 = self.encode_varint(value.len() as u64);
        if r2.is_err() {
            proof {
                lemma_performs_first(s1, wl, wv);
                lemma_performs_then(s0, s1, self@, wt, wl + wv, r2);
                assert(wt + (wl + wv) =~= tlv_writes(tlv_type.code() as u64, value@));
            }
            return r2;
        }
        let ghost s2 = self@;
        let r3 = self.write_bytes(value);
        proof {
            lemma_performs_then(s1, s2, self@, wl, wv, r3);
            lemma_performs_then(s0, s1, self@, wt, wl + wv, r3);
            assert(wt + (wl + wv) =~= tlv_writes(tlv_type.code() as u64, value@));
        }
        r3
    }

    /// Encode a TLV block whose value was encoded beforehand.
    pub fn encode_tlv_with_content(&mut self, tlv_type: TlvType, content: &[u8]) -> (r: Result<
        (),
        NdnError,
    >)
        ensures
            performs(old(self)@, final(self)@, tlv_writes(tlv_type.code() as u64, content@), r),
    {
        self.encode_tlv(tlv_type, content)
    }

    fn write_u8(&mut self, value: u8) -> (r: Result<(), NdnError>)
        ensures
            performs(old(self)@, final(self)@, seq![seq![value]], r),
    {
        proof {
            use_type_invariant(&*self);
            lemma_performs_single(self@, seq![value]);
        }
        if self.remaining() < 1 {
            return Err(NdnError::buffer_too_small(1, self.remaining()));
        }
        let p = self.position;
        self.buffer[p] = value;
        self.position = p + 1;
        proof {
            assert(self@.bytes =~= splice(old(self)@.bytes, old(self)@.pos, seq![value]));
        }
        Ok(())
    }

    fn write_u16(&mut self, value: u16) -> (r: Result<(), NdnError>)
        ensures
            performs(old(self)@, final(self)@, seq![be16(value)], r),
    {
        proof {
            use_type_invariant(&*self);
            lemma_performs_single(self@, be16(value));
        }
        if self.remaining() < 2 {
            return Err(NdnError::buffer_too_small(2, self.remaining()));
        }
        let p = self.position;
        self.buffer[p] = (value >> 8) as u8;
        self.buffer[p + 1] = value as u8;
        self.position = p + 2;
        proof {
            assert(self@.bytes =~= splice(old(self)@.bytes, old(self)@.pos, be16(value)));
        }
        Ok(())
    }

    fn write_u32(&mut self, value: u32) -> (r: Result<(), NdnError>)
        ensures
            performs(old(self)@, final(self)@, seq![be32(value)], r),
    {
        proof {
            use_type_invariant(&*self);
            lemma_performs_single(self@, be32(value));
        }
        if self.remaining() < 4 {
            return Err(NdnError::buffer_too_small(4, self.remaining()));
        }
        let p = self.position;
        self.buffer[p] = (value >> 24) as u8;
        self.buffer[p + 1] = (value >> 16) as u8;
        self.buffer[p + 2] = (value >> 8) as u8;
        self.buffer[p + 3] = value as u8;
        self.position = p + 4;
        proof {
            assert(self@.bytes =~= splice(old(self)@.bytes, old(self)@.pos, be32(value)));
        }
        Ok(())
    }

    fn write_u64(&mut self, value: u64) -> (r: Result<(), NdnError>)
        ensures
            performs(old(self)@, final(self)@, seq![be64(value)], r),
    {
        proof {
            use_type_invariant(&*self);
            lemma_performs_single(self@, be64(value));
        }
        if self.remaining() < 8 {
            return Err(NdnError::buffer_too_small(8, self.remaining()));
        }
        let p = self.position;
        self.buffer[p] = (value >> 56) as u8;
        self.buffer[p + 1] = (value >> 48) as u8;
        self.buffer[p + 2] = (value >> 40) as u8;
        self.buffer[p + 3] = (value >> 32) as u8;
        self.buffer[p + 4] = (value >> 24) as u8;
        self.buffer[p + 5] = (value >> 16) as u8;
        self.buffer[p + 6] = (value >> 8) as u8;
        self.buffer[p + 7] = value as u8;
        self.position = p + 8;
        proof {
            assert(self@.bytes =~= splice(old(self)@.bytes, old(self)@.pos, be64(value)));
        }
        Ok(())
    }

    fn write_bytes(&mut self, bytes: &[u8]) -> (r: Result<(), NdnError>)
        ensures
            performs(old(self)@, final(self)@, seq![bytes@], r),
    {
        proof {
            use_type_invariant(&*self);
            lemma_performs_single(self@, bytes@);
        }
        if self.remaining() < bytes.len() {
            return Err(NdnError::buffer_too_small(bytes.len(), self.remaining()));
        }
        let start = self.position;
        let n = bytes.len();
        let len = self.buffer.len();
        let mut i: usize = 0;
        while i < n
            invariant
                0 <= i <= n,
                n == bytes@.len(),
                start == old(self)@.pos,
                start + n <= len,
                len == self.buffer@.len(),
                self.position == start,
                self.buffer@.len() == old(self)@.bytes.len(),
                self.buffer@ =~= splice(old(self)@.bytes, start as int, bytes@.subrange(0, i as int)),
            decreases n - i,
        {
            self.buffer[start + i] = bytes[i];
            i = i + 1;
            proof {
                assert(self.buffer@ =~= splice(
                    old(self)@.bytes,
                    start as int,
                    bytes@.subrange(0, i as int),
                ));
            }
        }
        self.position = start + n;
        proof {
            assert(bytes@.subrange(0, n as int) =~= bytes@);
        }
        Ok(())
    }
}

/// Reads NDN TLV blocks out of a buffer, from the front.
pub struct TlvDecoder<'a> {
    buffer: &'a [u8],
    position: usize,
}

impl<'a> View for TlvDecoder<'a> {
    type V = ReadState;

    closed spec fn view(&self) -> ReadState {
        ReadState { bytes: self.buffer@, pos: self.position as int }
    }
}

impl<'a> TlvDecoder<'a> {
    #[verifier::type_invariant]
    spec fn position_in_buffer(self) -> bool {
        self.position <= self.buffer@.len()
    }

    pub fn new(buffer: &'a [u8]) -> (dec: Self)
        ensures
            dec@ == (ReadState { bytes: buffer@, pos: 0 }),
    {
        TlvDecoder { buffer, position: 0 }
    }

    /// The number of bytes read so far.
    pub fn position(&self) -> (r: usize)
        ensures
            r == self@.pos,
    {
        self.position
    }

    /// The number of bytes not read yet.
    pub fn remaining(&self) -> (r: usize)
        ensures
            r == self@.bytes.len() - self@.pos,
    {
        proof {
            use_type_invariant(self);
        }
        self.buffer.len() - self.position
    }

    /// Decode a variable-length number.
    pub fn decode_varint(&mut self) -> (r: Result<u64, NdnError>)
        ensures
            final(self)@.bytes == old(self)@.bytes,
            final(self)@.pos <= final(self)@.bytes.len(),
            (final(self)@.pos, r) == read_varint(old(self)@.bytes, old(self)@.pos),
    {
        proof {
            use_type_invariant(&*self);
        }
        if self.remaining() < 1 {
            return Err(NdnError::invalid_tlv("Unexpected end of buffer"));
        }
        let first_byte = self.buffer[self.position];
        self.position = self.position + 1;
        let p = self.position;
        if first_byte <= 252 {
            Ok(first_byte as u64)
        } else if first_byte == 0xFD {
            if self.remaining() < 2 {
                return Err(NdnError::invalid_tlv("Incomplete varint"));
            }
            let value = be16_value(self.buffer[p], self.buffer[p + 1]);
            self.position = p + 2;
            Ok(value as u64)
        } else if first_byte == 0xFE {
            if self.remaining() < 4 {
                return Err(NdnError::invalid_tlv("Incomplete varint"));
            }
            let value = be32_value(
                self.buffer[p],
                self.buffer[p + 1],
                self.buffer[p + 2],
                self.buffer[p + 3],
            );
            self.position = p + 4;
            Ok(value as u64)
        } else {
            if self.remaining() < 8 {
                return Err(NdnError::invalid_tlv("Incomplete varint"));
            }
            let value = be64_value(
                self.buffer[p],
                self.buffer[p + 1],
                self.buffer[p + 2],
                self.buffer[p + 3],
                self.buffer[p + 4],
                self.buffer[p + 5],
                self.buffer[p + 6],
                self.buffer[p + 7],
            );
            self.position = p + 8;
            Ok(value)
        }
    }

    /// Decode a TLV block: its type and its value, a part of the buffer.
    pub fn decode_tlv(&mut self) -> (r: Result<(TlvType, &'a [u8]), NdnError>)
        ensures
            final(self)@.bytes == old(self)@.bytes,
            final(self)@.pos <= final(self)@.bytes.len(),
            final(self)@.pos == read_tlv(old(self)@.bytes, old(self)@.pos).0,
            match (r, read_tlv(old(self)@.bytes, old(self)@.pos).1) {
                (Ok((t, v)), Ok((st, sv))) => t == st && v@ == sv,
                (Err(e), Err(se)) => e == se,
                _ => false,
            },
    {
        let code = self.decode_varint()?;
        let tlv_type = type_from_number(code)?;
        let length = self.decode_varint()?;
        proof {
            use_type_invariant(&*self);
        }
        if (self.remaining() as u64) < length {
            return Err(NdnError::invalid_tlv("TLV length exceeds buffer"));
        }
        let length = length as usize;
        let total = self.buffer.len();
        let start = self.position;
        let value = slice_subrange(self.buffer, start, start + length);
        self.position = start + length;
        Ok((tlv_type, value))
    }

    /// The type of the next TLV block; the decoder does not move.
    pub fn peek_tlv_type(&self) -> (r: Result<TlvType, NdnError>)
        ensures
            r == peek_type(self@.bytes, self@.pos),
    {
        proof {
            use_type_invariant(self);
        }
        let rest = slice_subrange(self.buffer, self.position, self.buffer.len());
        let mut temp_decoder = TlvDecoder::new(rest);
        proof {
            lemma_read_varint_shift(self@.bytes, self@.pos);
        }
        let code = temp_decoder.decode_varint()?;
        type_from_number(code)
    }

    /// Whether there are bytes left to decode.
    pub fn has_next(&self) -> (r: bool)
        ensures
            r == (self@.pos < self@.bytes.len()),
    {
        self.remaining() > 0
    }
}

/// The TLV type of a type number read from the wire.
fn type_from_number(code: u64) -> (r: Result<TlvType, NdnError>)
    ensures
        r == parse_type_number(code),
{
    if code > 0xFFFF_FFFF {
        Err(NdnError::invalid_tlv("TLV type number out of range"))
    } else {
        TlvType::from_u32(code as u32)
    }
}

fn be16_value(b0: u8, b1: u8) -> (r: u16)
    ensures
        r == from_be16(b0, b1),
{
    ((b0 as u16) << 8) | (b1 as u16)
}

fn be32_value(b0: u8, b1: u8, b2: u8, b3: u8) -> (r: u32)
    ensures
        r == from_be32(b0, b1, b2, b3),
{
    ((b0 as u32) << 24) | ((b1 as u32) << 16) | ((b2 as u32) << 8) | (b3 as u32)
}

fn be64_value(b0: u8, b1: u8, b2: u8, b3: u8, b4: u8, b5: u8, b6: u8, b7: u8) -> (r: u64)
    ensures
        r == from_be64(b0, b1, b2, b3, b4, b5, b6, b7),
{
    ((b0 as u64) << 56) | ((b1 as u64) << 48) | ((b2 as u64) << 40) | ((b3 as u64) << 32) | ((
    b4 as u64) << 24) | ((b5 as u64) << 16) | ((b6 as u64) << 8) | (b7 as u64)
}

} // verus!
