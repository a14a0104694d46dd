//! Commands, their headers and their wire encoding.

use crate::network::data_container::{container_bytes, serialized_size, Container};
use crate::protocol::byte_order::{lemma_u32_round_trip, push_bytes, push_u32_be, u32_be};
use crate::protocol::protocol_parser::{header_of, parse_container};
use crate::protocol::round_trip::{encodable, lemma_body_round_trip, lemma_header_round_trip};
use uuid::Uuid;
use vstd::arithmetic::div_mod::lemma_add_mod_noop_right;
use vstd::prelude::*;

verus! {

/// `uuid::Uuid`, a 128-bit identifier. Its inside is not visible here: the
/// bytes that it holds go by the name `uuid_bytes`.
#[verifier::external_type_specification]
#[verifier::external_body]
pub struct ExUuid(uuid::Uuid);

/// `uuid::Error`, what `Uuid::from_slice` fails with.
#[verifier::external_type_specification]
#[verifier::external_body]
pub struct ExUuidError(uuid::Error);

/// The sixteen bytes that an identifier holds, in the order in which they are
/// written on the wire.
pub uninterp spec fn uuid_bytes(id: Uuid) -> Seq<u8>;

/// `Uuid::from_slice` takes a slice of exactly sixteen bytes and fails on any
/// other length; the identifier it gives holds those bytes.
pub assume_specification[ Uuid::from_slice ](b: &[u8]) -> (r: Result<Uuid, uuid::Error>)
    ensures
        r is Ok <==> b@.len() == 16,
        r matches Ok(id) ==> uuid_bytes(id) == b@,
;

/// `Uuid::as_bytes` hands out the sixteen bytes that the identifier holds.
pub assume_specification[ Uuid::as_bytes ](id: &Uuid) -> (r: &[u8; 16])
    ensures
        r@ == uuid_bytes(*id),
;

/// `Uuid::nil` is the identifier whose sixteen bytes are all zero.
pub assume_specification[ Uuid::nil ]() -> (r: Uuid)
    ensures
        uuid_bytes(r) == nil_bytes(),
;

/// Sixteen zero bytes: what stands on the wire for an absent identifier.
pub open spec fn nil_bytes() -> Seq<u8> {
    Seq::new(16, |i: int| 0u8)
}

/// The bytes that stand on the wire for an identifier that may be absent.
pub open spec fn id_bytes(id: Option<Uuid>) -> Seq<u8> {
    match id {
        Some(id) => uuid_bytes(id),
        None => nil_bytes(),
    }
}

/// What a command asks for.
#[derive(Debug, Clone, Copy, PartialEq, Eq, Structural)]
pub enum AdaCommandType {
    CloseConnection,
    ExecuteNode,
    PropagateNode,
    Unknown,
}

impl AdaCommandType {
    /// The byte that stands on the wire for a command type.
    pub open spec fn spec_tag(self) -> u8 {
        match self {
            AdaCommandType::CloseConnection => 1,
            AdaCommandType::ExecuteNode => 30,
            AdaCommandType::PropagateNode => 31,
            AdaCommandType::Unknown => 32,
        }
    }

    /// The command type that a byte names: every byte names one, and a byte
    /// with no meaning of its own names `Unknown`.
    pub open spec fn of_tag(value: u8) -> AdaCommandType {
        if value == 1 {
            AdaCommandType::CloseConnection
        } else if value == 30 {
            AdaCommandType::ExecuteNode
        } else if value == 31 {
            AdaCommandType::PropagateNode
        } else {
            AdaCommandType::Unknown
        }
    }

    /// The byte that stands on the wire for this command type.
    pub fn tag(&self) -> (value: u8)
        ensures
            value == self.spec_tag(),
            AdaCommandType::of_tag(value) == *self,
    {
        match self {
            AdaCommandType::CloseConnection => 1,
            AdaCommandType::ExecuteNode => 30,
            AdaCommandType::PropagateNode => 31,
            AdaCommandType::Unknown => 32,
        }
    }

    /// Reads a command type from its byte. This never fails: a byte with no
    /// meaning of its own gives `Unknown`.
    pub fn try_from(value: u8) -> (r: Result<AdaCommandType, &'static str>)
        ensures
            r == Ok::<AdaCommandType, &'static str>(AdaCommandType::of_tag(value)),
    {
        match value {
            1 => Ok(AdaCommandType::CloseConnection),
            30 => Ok(AdaCommandType::ExecuteNode),
            31 => Ok(AdaCommandType::PropagateNode),
            _ => Ok(AdaCommandType::Unknown),
        }
    }
}

/// The size of a command header on the wire: version, frame length, command
/// type and two identifiers.
pub const COMMON_HEADER_SIZE: u32 = 1 + 4 + 1 + 16 + 16;

/// The fixed part of a command. `content_length` counts the whole frame, the
/// header included.
#[derive(Debug, Clone, Copy)]
pub struct AdaCommandHeader {
    pub version: u8,
    pub content_length: u32,
    pub command_type: AdaCommandType,
    pub network: Option<Uuid>,
    pub node: Option<Uuid>,
}

/// What a header says, with each identifier as the bytes that stand for it
/// on the wire.
pub ghost struct HeaderView {
    pub version: u8,
    pub content_length: u32,
    pub command_type: AdaCommandType,
    pub network: Seq<u8>,
    pub node: Seq<u8>,
}

impl View for AdaCommandHeader {
    type V = HeaderView;

    open spec fn view(&self) -> HeaderView {
        HeaderView {
            version: self.version,
            content_length: self.content_length,
            command_type: self.command_type,
            network: id_bytes(self.network),
            node: id_bytes(self.node),
        }
    }
}

/// The thirty-eight bytes of a header.
pub open spec fn header_bytes(header: HeaderView) -> Seq<u8> {
    seq![header.version] + u32_be(header.content_length) + seq![header.command_type.spec_tag()]
        + header.network + header.node
}

/// A header with the data that goes with it, if any.
#[derive(Debug)]
pub struct AdaCommand {
    pub header: AdaCommandHeader,
    pub data: Option<Container>,
}

impl AdaCommand {
    /// The data, if there is any, is well formed.
    pub open spec fn wf(&self) -> bool {
        self.data matches Some(data) ==> data.wf()
    }

    /// The length of the data block, zero where there is none.
    pub open spec fn data_size(&self) -> nat {
        match self.data {
            Some(data) => serialized_size(data.entries()),
            None => 0,
        }
    }

    /// The length of the whole frame as the header states it: the low
    /// thirty-two bits of the header's size plus the data's.
    pub open spec fn frame_length(&self) -> u32 {
        ((38 + self.data_size()) % 0x1_0000_0000) as u32
    }

    /// The header as it is written: the stated length is that of the frame,
    /// whatever `content_length` holds.
    pub open spec fn wire_header(&self) -> HeaderView {
        HeaderView {
            version: self.header.version,
            content_length: self.frame_length(),
            command_type: self.header.command_type,
            network: id_bytes(self.header.network),
            node: id_bytes(self.header.node),
        }
    }

    /// The data block, empty where the command carries no data.
    pub open spec fn body(&self) -> Seq<u8> {
        match self.data {
            Some(data) => container_bytes(data.entries()),
            None => Seq::empty(),
        }
    }

    /// The frame: the header, then the data block where there is one.
    pub open spec fn frame(&self) -> Seq<u8> {
        header_bytes(self.wire_header()) + self.body()
    }

    /// A command of the given type with nothing else set: no data, no
    /// identifiers, and as its length that of a frame without data.
    pub fn new(command_type: AdaCommandType) -> (command: Self)
        ensures
            command.header.command_type == command_type,
            command.header.content_length == 38,
            command.header.content_length == command.frame_length(),
            command.header.version == 0,
            command.header.node is None,
            command.header.network is None,
            command.data is None,
    {
        AdaCommand {
            header: AdaCommandHeader {
                command_type,
                content_length: COMMON_HEADER_SIZE,
                version: 0,
                node: None,
                network: None,
            },
            data: None,
        }
    }

    /// The frame of this command. Its first thirty-eight bytes read back as
    /// the header that was written, and what follows them as the data that
    /// the command carries, where that data can be read back at all.
    pub fn to_bytes(&self) -> (bytes: Vec<u8>)
        ensures
            bytes@ == self.frame(),
            bytes@.len() == 38 + self.data_size(),
            header_of(bytes@.subrange(0, 38)) == self.wire_header(),
            self.data matches Some(data) ==> (encodable(data.entries()) ==> parse_container(
                bytes@,
                38,
            ) == Some(data@)),
    {
        let mut bytes: Vec<u8> = Vec::new();
        bytes.push(self.header.version);
        let size: u32 = self.get_total_bytes();
        push_u32_be(&mut bytes, size);
        bytes.push(self.header.command_type.tag());
        let network = match self.header.network {
            Some(id) => id,
            None => Uuid::nil(),
        };
        push_bytes(&mut bytes, network.as_bytes().as_slice());
        let node = match self.header.node {
            Some(id) => id,
            None => Uuid::nil(),
        };
        push_bytes(&mut bytes, node.as_bytes().as_slice());
        proof {
            lemma_u32_round_trip(size);
            assert(bytes@ =~= header_bytes(self.wire_header()));
            assert(bytes@.len() == 38);
        }
        if let Some(data) = &self.data {
            let block = data.get_bytes();
            push_bytes(&mut bytes, block.as_slice());
            proof {
                data.lemma_view();
                if encodable(data.entries()) {
                    lemma_body_round_trip(self.wire_header(), data.entries());
                }
            }
        }
        proof {
            assert(bytes@ =~= self.frame());
            lemma_header_round_trip(self.wire_header(), self.body());
        }
        bytes
    }

    /// The length of the frame, as the header states it.
    pub fn get_total_bytes(&self) -> (size: u32)
        ensures
            size == self.frame_length(),
            38 + self.data_size() <= u32::MAX ==> size == 38 + self.data_size(),
    {
        let data_size: u32 = match &self.data {
            Some(data) => data.get_data_size(),
            None => 0,
        };
        proof {
            lemma_add_mod_noop_right(38, self.data_size() as int, 0x1_0000_0000);
        }
        ((COMMON_HEADER_SIZE as u64 + data_size as u64) % 0x1_0000_0000) as u32
    }
}

} // verus!
