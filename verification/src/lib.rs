//! NDN (Named Data Networking) packets and their TLV wire encoding, with the
//! forwarding decisions of an XDP fast path, verified with Verus.
use vstd::prelude::*;
use vstd::string::StringExecFns;

pub mod error;
pub mod forwarding;
pub mod laws;
pub mod ndn;
pub mod producer;
pub mod text;
pub mod tlv;
pub mod wire;

pub use error::NdnError;
pub use ndn::{Data, Interest, MetaInfo, Name, NameComponent, Signature};
pub use tlv::{TlvDecoder, TlvEncoder, TlvType};

use text::name_text;

verus! {

/// The result of NDN operations.
pub type Result<T> = core::result::Result<T, NdnError>;

/// An NDN packet: an Interest or a Data packet.
#[derive(Debug, Clone, PartialEq)]
pub enum NdnPacket {
    Interest(Interest),
    Data(Data),
}

/// The name that a packet carries.
pub open spec fn packet_name(p: NdnPacket) -> Seq<Seq<u8>> {
    match p {
        NdnPacket::Interest(i) => i@.name,
        NdnPacket::Data(d) => d@.name,
    }
}

/// A packet as text: its kind, then its name in brackets.
pub open spec fn packet_text(p: NdnPacket) -> Seq<char> {
    match p {
        NdnPacket::Interest(i) => "Interest("@ + name_text(i@.name) + ")"@,
        NdnPacket::Data(d) => "Data("@ + name_text(d@.name) + ")"@,
    }
}

impl NdnPacket {
    /// The name of the packet.
    pub fn name(&self) -> (r: &Name)
        ensures
            r@ == packet_name(*self),
    {
        match self {
            NdnPacket::Interest(interest) => interest.name(),
            NdnPacket::Data(data) => data.name(),
        }
    }

    /// Whether this is an Interest packet.
    pub fn is_interest(&self) -> (r: bool)
        ensures
            r == (*self is Interest),
    {
        match self {
            NdnPacket::Interest(_) => true,
            NdnPacket::Data(_) => false,
        }
    }

    /// Whether this is a Data packet.
    pub fn is_data(&self) -> (r: bool)
        ensures
            r == (*self is Data),
    {
        match self {
            NdnPacket::Interest(_) => false,
            NdnPacket::Data(_) => true,
        }
    }

    /// The packet as text, such as `Interest(/a/b)`.
    pub fn to_string(&self) -> (r: String)
        ensures
            r@ == packet_text(*self),
    {
        let (mut out, name) = match self {
            NdnPacket::Interest(interest) => (String::from_str("Interest("), interest.name()),
            NdnPacket::Data(data) => (String::from_str("Data("), data.name()),
        };
        let name_str = name.to_string();
        out.append(name_str.as_str());
        out.append(")");
        out
    }
}

} // verus!
