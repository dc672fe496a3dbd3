//! The wire format, stated over byte sequences: what each packet, message,
//! field and operation means, and which bytes stand for it.
use vstd::prelude::*;
use vstd::utf8::{decode_utf8, encode_utf8, valid_utf8};

use crate::utils::bytes::{be16, be16_bytes, be32, be32_bytes, be48, be48_bytes};
use crate::utils::info::info_table;
use crate::utils::parser::{AerospikeFieldType, Fatal};

verus! {

/// Bytes of a packet before its body: version, type and a six-byte size.
pub const PACKET_HEADER_LEN: usize = 8;

/// Bytes of a message before its fields.
pub const MESSAGE_HEADER_LEN: usize = 22;

/// The type byte of an info packet.
pub const INFO_PACKET: u8 = 0x01;

/// The type byte of a message packet.
pub const MESSAGE_PACKET: u8 = 0x03;

/// The version byte of every packet that is written.
pub const PROTOCOL_VERSION: u8 = 0x02;

/// A field: its declared size, its type and its data.
pub struct FieldView {
    pub size: u32,
    pub field_type: AerospikeFieldType,
    pub data: Seq<u8>,
}

/// An operation on one bin.
pub struct OperationView {
    pub op_sz: u32,
    pub op: u8,
    pub particle_type: u8,
    pub bin_version: u8,
    pub bin_name_length: u8,
    pub bin_name: Seq<char>,
    pub data: Seq<u8>,
}

/// A message: the fixed header, then fields and operations.
pub struct MessageView {
    pub header_sz: u8,
    pub info1: u8,
    pub info2: u8,
    pub info3: u8,
    pub info4: u8,
    pub result_code: u8,
    pub generation: u32,
    pub record_ttl: u32,
    pub transaction_ttl: u32,
    pub n_fields: u16,
    pub n_ops: u16,
    pub fields: Seq<FieldView>,
    pub operations: Seq<OperationView>,
}

/// What a packet carries.
pub enum BodyView {
    Info(Map<Seq<char>, Option<Seq<char>>>),
    Message(MessageView),
}

/// A packet: version, type, declared size and body.
pub struct PacketView {
    pub version: u8,
    pub message_type: u8,
    pub size: u64,
    pub body: BodyView,
}

/// The errors of parsing, without what the outside errors carry.
pub enum ErrorKind {
    PacketTooShort,
    HeaderSizeNotPresent,
    MessageSizeMismatch,
    ErrorWhileParsingField,
    ErrorWhileParsingMessage,
    UnsupportedMessageType,
}

/// Why bytes are not accepted.
pub enum FailureView {
    Rejected(ErrorKind),
    Fatal(Fatal),
}

/// Whether reading ends in a breach of the protocol.
pub open spec fn is_fatal<T>(r: Result<T, FailureView>) -> bool {
    r matches Err(FailureView::Fatal(_))
}

/// The field type that a byte stands for.
pub open spec fn field_type_of(code: u8) -> Option<AerospikeFieldType> {
    match code {
        0 => Some(AerospikeFieldType::Namespace),
        1 => Some(AerospikeFieldType::SetName),
        2 => Some(AerospikeFieldType::Key),
        3 => Some(AerospikeFieldType::RecordVersion),
        4 => Some(AerospikeFieldType::DigestRipe),
        5 => Some(AerospikeFieldType::MrtId),
        6 => Some(AerospikeFieldType::MrtDeadline),
        7 => Some(AerospikeFieldType::TRID),
        9 => Some(AerospikeFieldType::SocketTimeout),
        10 => Some(AerospikeFieldType::RecsPerSec),
        11 => Some(AerospikeFieldType::PidArray),
        12 => Some(AerospikeFieldType::DigestArray),
        13 => Some(AerospikeFieldType::SampleMax),
        14 => Some(AerospikeFieldType::LUT),
        15 => Some(AerospikeFieldType::BvalArray),
        21 => Some(AerospikeFieldType::IndexName),
        22 => Some(AerospikeFieldType::IndexRange),
        23 => Some(AerospikeFieldType::IndexContext),
        26 => Some(AerospikeFieldType::IndexType),
        30 => Some(AerospikeFieldType::UdfFilename),
        31 => Some(AerospikeFieldType::UdfFunction),
        32 => Some(AerospikeFieldType::UdfArglist),
        33 => Some(AerospikeFieldType::UdfOp),
        40 => Some(AerospikeFieldType::QueryBinlist),
        41 => Some(AerospikeFieldType::Batch),
        42 => Some(AerospikeFieldType::BatchWithSet),
        43 => Some(AerospikeFieldType::PredExp),
        _ => None,
    }
}

/// The byte that stands for a field type.
pub open spec fn field_code(t: AerospikeFieldType) -> u8 {
    match t {
        AerospikeFieldType::Namespace => 0,
        AerospikeFieldType::SetName => 1,
        AerospikeFieldType::Key => 2,
        AerospikeFieldType::RecordVersion => 3,
        AerospikeFieldType::DigestRipe => 4,
        AerospikeFieldType::MrtId => 5,
        AerospikeFieldType::MrtDeadline => 6,
        AerospikeFieldType::TRID => 7,
        AerospikeFieldType::SocketTimeout => 9,
        AerospikeFieldType::RecsPerSec => 10,
        AerospikeFieldType::PidArray => 11,
        AerospikeFieldType::DigestArray => 12,
        AerospikeFieldType::SampleMax => 13,
        AerospikeFieldType::LUT => 14,
        AerospikeFieldType::BvalArray => 15,
        AerospikeFieldType::IndexName => 21,
        AerospikeFieldType::IndexRange => 22,
        AerospikeFieldType::IndexContext => 23,
        AerospikeFieldType::IndexType => 26,
        AerospikeFieldType::UdfFilename => 30,
        AerospikeFieldType::UdfFunction => 31,
        AerospikeFieldType::UdfArglist => 32,
        AerospikeFieldType::UdfOp => 33,
        AerospikeFieldType::QueryBinlist => 40,
        AerospikeFieldType::Batch => 41,
        AerospikeFieldType::BatchWithSet => 42,
        AerospikeFieldType::PredExp => 43,
    }
}

/// One field at the front of `s`, and what follows it.
///
/// The size counts the type byte and the data, so it is never zero.
pub open spec fn read_field(s: Seq<u8>) -> Result<(FieldView, Seq<u8>), FailureView> {
    if s.len() < 5 {
        Err(FailureView::Rejected(ErrorKind::ErrorWhileParsingField))
    } else {
        let size = be32(s);
        match field_type_of(s[4]) {
            None => Err(FailureView::Rejected(ErrorKind::UnsupportedMessageType)),
            Some(field_type) => if size == 0 {
                Err(FailureView::Fatal(Fatal::EmptyField))
            } else if s.len() < 4 + size {
                Err(FailureView::Rejected(ErrorKind::ErrorWhileParsingField))
            } else {
                Ok(
                    (
                        FieldView { size, field_type, data: s.subrange(5, 4 + size) },
                        s.skip(4 + size),
                    ),
                )
            },
        }
    }
}

/// `n` fields at the front of `s`, added to those in `done`.
pub open spec fn read_fields(done: Seq<FieldView>, n: nat, s: Seq<u8>) -> Result<
    (Seq<FieldView>, Seq<u8>),
    FailureView,
>
    decreases n,
{
    if n == 0 {
        Ok((done, s))
    } else {
        match read_field(s) {
            Ok((field, rest)) => read_fields(done.push(field), (n - 1) as nat, rest),
            Err(e) => Err(e),
        }
    }
}

/// One operation at the front of `s`, and what follows it.
///
/// The size counts everything behind itself: four bytes, the bin name and
/// the data.
pub open spec fn read_operation(s: Seq<u8>) -> Result<(OperationView, Seq<u8>), FailureView> {
    if s.len() < 8 || s.len() < 8 + s[7] {
        Err(FailureView::Rejected(ErrorKind::ErrorWhileParsingField))
    } else {
        let op_sz = be32(s);
        let name = s.subrange(8, 8 + s[7]);
        if !valid_utf8(name) {
            Err(FailureView::Rejected(ErrorKind::ErrorWhileParsingMessage))
        } else if op_sz < 4 + s[7] {
            Err(FailureView::Fatal(Fatal::ShortOperation))
        } else if s.len() < 4 + op_sz {
            Err(FailureView::Rejected(ErrorKind::ErrorWhileParsingField))
        } else {
            Ok(
                (
                    OperationView {
                        op_sz,
                        op: s[4],
                        particle_type: s[5],
                        bin_version: s[6],
                        bin_name_length: s[7],
                        bin_name: decode_utf8(name),
                        data: s.subrange(8 + s[7], 4 + op_sz),
                    },
                    s.skip(4 + op_sz),
                ),
            )
        }
    }
}

/// `n` operations at the front of `s`, added to those in `done`.
pub open spec fn read_operations(done: Seq<OperationView>, n: nat, s: Seq<u8>) -> Result<
    (Seq<OperationView>, Seq<u8>),
    FailureView,
>
    decreases n,
{
    if n == 0 {
        Ok((done, s))
    } else {
        match read_operation(s) {
            Ok((operation, rest)) => read_operations(done.push(operation), (n - 1) as nat, rest),
            Err(e) => Err(e),
        }
    }
}

/// The message that `s` as a whole stands for.
pub open spec fn read_message(s: Seq<u8>) -> Result<MessageView, FailureView> {
    if s.len() == 0 {
        Err(FailureView::Rejected(ErrorKind::HeaderSizeNotPresent))
    } else if s.len() < s[0] {
        Err(FailureView::Rejected(ErrorKind::MessageSizeMismatch))
    } else if s.len() < MESSAGE_HEADER_LEN {
        Err(FailureView::Rejected(ErrorKind::ErrorWhileParsingField))
    } else {
        let n_fields = be16(s.skip(18));
        let n_ops = be16(s.skip(20));
        match read_fields(Seq::empty(), n_fields as nat, s.skip(22)) {
            Err(e) => Err(e),
            Ok((fields, rest)) => match read_operations(Seq::empty(), n_ops as nat, rest) {
                Err(e) => Err(e),
                Ok((operations, rest)) => if rest.len() != 0 {
                    Err(FailureView::Fatal(Fatal::TrailingBytes))
                } else {
                    Ok(
                        MessageView {
                            header_sz: s[0],
                            info1: s[1],
                            info2: s[2],
                            info3: s[3],
                            info4: s[4],
                            result_code: s[5],
                            generation: be32(s.skip(6)),
                            record_ttl: be32(s.skip(10)),
                            transaction_ttl: be32(s.skip(14)),
                            n_fields,
                            n_ops,
                            fields,
                            operations,
                        },
                    )
                },
            },
        }
    }
}

/// The body that `s` as a whole stands for in a packet of the given type.
pub open spec fn read_body(message_type: u8, s: Seq<u8>) -> Result<BodyView, FailureView> {
    if message_type == INFO_PACKET {
        if valid_utf8(s) {
            Ok(BodyView::Info(info_table(Map::empty(), s)))
        } else {
            Err(FailureView::Rejected(ErrorKind::ErrorWhileParsingMessage))
        }
    } else if message_type == MESSAGE_PACKET {
        match read_message(s) {
            Ok(m) => Ok(BodyView::Message(m)),
            Err(e) => Err(e),
        }
    } else {
        Err(FailureView::Rejected(ErrorKind::UnsupportedMessageType))
    }
}

/// The packet that `s` as a whole stands for. The declared size is not held
/// against the length of the body.
pub open spec fn read_packet(s: Seq<u8>) -> Result<PacketView, FailureView> {
    if s.len() < PACKET_HEADER_LEN {
        Err(FailureView::Rejected(ErrorKind::PacketTooShort))
    } else {
        match read_body(s[1], s.skip(8)) {
            Err(e) => Err(e),
            Ok(body) => Ok(
                PacketView { version: s[0], message_type: s[1], size: be48(s.skip(2)), body },
            ),
        }
    }
}

/// The key of a record.
pub struct KeyView {
    pub namespace: Seq<char>,
    pub set: Seq<char>,
    pub digest: Seq<u8>,
}

/// The last field of type `t`.
pub open spec fn last_field(fields: Seq<FieldView>, t: AerospikeFieldType) -> Option<FieldView>
    decreases fields.len(),
{
    if fields.len() == 0 {
        None
    } else if fields.last().field_type == t {
        Some(fields.last())
    } else {
        last_field(fields.drop_last(), t)
    }
}

/// The key that a message's fields name: there are exactly three of them, a
/// namespace, a set and a digest, and the first two are UTF-8.
pub open spec fn key_of(fields: Seq<FieldView>) -> Option<KeyView> {
    if fields.len() != 3 {
        None
    } else {
        match (
            last_field(fields, AerospikeFieldType::Namespace),
            last_field(fields, AerospikeFieldType::SetName),
            last_field(fields, AerospikeFieldType::DigestRipe),
        ) {
            (Some(namespace), Some(set), Some(digest)) => if valid_utf8(namespace.data)
                && valid_utf8(set.data) {
                Some(
                    KeyView {
                        namespace: decode_utf8(namespace.data),
                        set: decode_utf8(set.data),
                        digest: digest.data,
                    },
                )
            } else {
                None
            },
            _ => None,
        }
    }
}

/// The bytes of an operation.
pub open spec fn operation_bytes(o: OperationView) -> Seq<u8> {
    be32_bytes(o.op_sz) + seq![o.op, o.particle_type, o.bin_version, o.bin_name_length]
        + encode_utf8(o.bin_name) + o.data
}

/// The bytes of a list of operations, one after the other.
pub open spec fn operations_bytes(ops: Seq<OperationView>) -> Seq<u8>
    decreases ops.len(),
{
    if ops.len() == 0 {
        Seq::empty()
    } else {
        operation_bytes(ops[0]) + operations_bytes(ops.drop_first())
    }
}

/// The sizes that a list of operations declares, each with its own four bytes.
pub open spec fn operations_size(ops: Seq<OperationView>) -> nat
    decreases ops.len(),
{
    if ops.len() == 0 {
        0
    } else {
        4 + ops[0].op_sz as nat + operations_size(ops.drop_first())
    }
}

/// The fixed header of a message.
pub open spec fn message_header_bytes(m: MessageView) -> Seq<u8> {
    seq![m.header_sz, m.info1, m.info2, m.info3, m.info4, m.result_code] + be32_bytes(m.generation)
        + be32_bytes(m.record_ttl) + be32_bytes(m.transaction_ttl) + be16_bytes(m.n_fields)
        + be16_bytes(m.n_ops)
}

/// The bytes of a message without fields.
pub open spec fn message_bytes(m: MessageView) -> Seq<u8>
    recommends
        m.fields.len() == 0,
{
    message_header_bytes(m) + operations_bytes(m.operations)
}

/// The size that a message without fields declares.
pub open spec fn message_size(m: MessageView) -> nat {
    MESSAGE_HEADER_LEN as nat + operations_size(m.operations)
}

/// The bytes of a packet that carries a message.
pub open spec fn packet_bytes(p: PacketView) -> Seq<u8>
    recommends
        p.body is Message,
{
    seq![p.version, p.message_type] + be48_bytes(p.size) + message_bytes(p.body->Message_0)
}

/// The message that is built from parts: header size and counts follow from them.
pub open spec fn new_message(
    info: (u8, u8, u8, u8),
    result_code: u8,
    generation: u32,
    record_ttl: u32,
    transaction_ttl: u32,
    fields: Seq<FieldView>,
    operations: Seq<OperationView>,
) -> MessageView {
    MessageView {
        header_sz: 0x16,
        info1: info.0,
        info2: info.1,
        info3: info.2,
        info4: info.3,
        result_code,
        generation,
        record_ttl,
        transaction_ttl,
        n_fields: (fields.len() % 0x1_0000) as u16,
        n_ops: (operations.len() % 0x1_0000) as u16,
        fields,
        operations,
    }
}

/// The packet that is built around a message.
pub open spec fn new_packet(m: MessageView) -> PacketView {
    PacketView {
        version: PROTOCOL_VERSION,
        message_type: MESSAGE_PACKET,
        size: message_size(m) as u64,
        body: BodyView::Message(m),
    }
}

/// The bytes of the packet that acknowledges a write.
pub open spec fn write_reply(record_ttl: u32, transaction_ttl: u32) -> Seq<u8> {
    seq![PROTOCOL_VERSION, MESSAGE_PACKET, 0, 0, 0, 0, 0, 0x16] + seq![
        0x16u8,
        0,
        0,
        0,
        0,
        0,
        0,
        0,
        0,
        0,
    ] + be32_bytes(record_ttl) + be32_bytes(transaction_ttl) + seq![0u8, 0, 0, 0]
}

/// The operation that is made from a bin name and data; the declared sizes are
/// cut down to what their fields hold.
pub open spec fn new_operation(
    op: u8,
    particle_type: u8,
    bin_version: u8,
    bin_name: Seq<char>,
    data: Seq<u8>,
) -> OperationView {
    let name_len = encode_utf8(bin_name).len();
    OperationView {
        op_sz: ((4 + name_len + data.len()) % 0x1_0000_0000) as u32,
        op,
        particle_type,
        bin_version,
        bin_name_length: (name_len % 0x100) as u8,
        bin_name,
        data,
    }
}

/// Whether an operation declares the size that it has as a whole.
pub open spec fn operation_sized(o: OperationView) -> bool {
    o.op_sz == 4 + encode_utf8(o.bin_name).len() + o.data.len()
}

/// Whether an operation declares the sizes that its name and data have.
pub open spec fn operation_consistent(o: OperationView) -> bool {
    &&& o.bin_name_length == encode_utf8(o.bin_name).len()
    &&& operation_sized(o)
}

/// Whether bit `bit` is set in `flags`.
pub open spec fn has_flag(flags: u8, bit: u8) -> bool {
    flags & (1u8 << bit) != 0
}

} // verus!
