use vstd::prelude::*;

verus! {

/// Errors of NDN encoding, decoding and packet handling.
#[derive(Debug, Clone, PartialEq)]
pub enum NdnError {
    /// Invalid TLV encoding
    InvalidTlv { message: &'static str },
    /// Invalid packet format
    InvalidPacket { message: &'static str },
    /// Invalid name format
    InvalidName { message: &'static str },
    /// The buffer has fewer bytes left than a write needs
    BufferTooSmall { need: usize, have: usize },
    /// A TLV type number that this library does not know
    UnsupportedTlvType { tlv_type: u32 },
    /// Serialization error
    Serialization { message: &'static str },
    /// Deserialization error
    Deserialization { message: &'static str },
}

impl NdnError {
    pub fn invalid_tlv(message: &'static str) -> (e: Self)
        ensures
            e == (NdnError::InvalidTlv { message }),
    {
        NdnError::InvalidTlv { message }
    }

    pub fn invalid_packet(message: &'static str) -> (e: Self)
        ensures
            e == (NdnError::InvalidPacket { message }),
    {
        NdnError::InvalidPacket { message }
    }

    pub fn invalid_name(message: &'static str) -> (e: Self)
        ensures
            e == (NdnError::InvalidName { message }),
    {
        NdnError::InvalidName { message }
    }

    pub fn buffer_too_small(need: usize, have: usize) -> (e: Self)
        ensures
            e == (NdnError::BufferTooSmall { need, have }),
    {
        NdnError::BufferTooSmall { need, have }
    }

    pub fn unsupported_tlv_type(tlv_type: u32) -> (e: Self)
        ensures
            e == (NdnError::UnsupportedTlvType { tlv_type }),
    {
        NdnError::UnsupportedTlvType { tlv_type }
    }

    pub fn serialization(message: &'static str) -> (e: Self)
        ensures
            e == (NdnError::Serialization { message }),
    {
        NdnError::Serialization { message }
    }

    pub fn deserialization(message: &'static str) -> (e: Self)
        ensures
            e == (NdnError::Deserialization { message }),
    {
        NdnError::Deserialization { message }
    }
}

} // verus!
