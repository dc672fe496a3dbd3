//! Aerospike packets: reading them from bytes and writing them to bytes.
use std::string::FromUtf8Error;
use vstd::prelude::*;
use vstd::slice::{slice_subrange, slice_to_vec};
use vstd::utf8::encode_utf8;

use crate::utils::bytes::{push_u16, push_u32, push_u48, read_u48, Cursor};
use crate::utils::format::{
    field_type_of, has_flag, is_fatal, key_of, last_field, message_bytes, message_header_bytes,
    message_size, new_message, new_operation, new_packet, operation_bytes, operations_bytes,
    operations_size, packet_bytes, read_body, read_field, read_fields, read_message,
    read_operation, read_operations, read_packet, write_reply, BodyView, ErrorKind, FailureView,
    FieldView, KeyView, MessageView, OperationView, PacketView, INFO_PACKET, MESSAGE_HEADER_LEN,
    MESSAGE_PACKET, PACKET_HEADER_LEN, PROTOCOL_VERSION,
};
use crate::utils::info::AerospikeInfo;

verus! {

// READ, GET_ALL
pub const INFO1_ALLOWED_MASK: u8 = (1 << 0) | (1 << 1);

// WRITE, DELETE, CREATE_ONLY
pub const INFO2_ALLOWED_MASK: u8 = (1 << 0) | (1 << 1) | (1 << 5);

pub const INFO3_ALLOWED_MASK: u8 = 0;

pub const INFO4_ALLOWED_MASK: u8 = 0;

/// Why bytes could not be read as a packet.
#[derive(Debug)]
pub enum ParseError {
    PacketTooShort,
    HeaderSizeNotPresent,
    MessageSizeMismatch,
    ErrorWhileParsingField(std::io::Error),
    ErrorWhileParsingMessage(FromUtf8Error),
    UnsupportedMessageType,
}

impl ParseError {
    /// The error without what it carries.
    pub open spec fn kind(&self) -> ErrorKind {
        match *self {
            ParseError::PacketTooShort => ErrorKind::PacketTooShort,
            ParseError::HeaderSizeNotPresent => ErrorKind::HeaderSizeNotPresent,
            ParseError::MessageSizeMismatch => ErrorKind::MessageSizeMismatch,
            ParseError::ErrorWhileParsingField(_) => ErrorKind::ErrorWhileParsingField,
            ParseError::ErrorWhileParsingMessage(_) => ErrorKind::ErrorWhileParsingMessage,
            ParseError::UnsupportedMessageType => ErrorKind::UnsupportedMessageType,
        }
    }
}

impl From<std::io::Error> for ParseError {
    fn from(err: std::io::Error) -> (r: Self) {
        ParseError::ErrorWhileParsingField(err)
    }
}

impl vstd::std_specs::convert::FromSpecImpl<std::io::Error> for ParseError {
    open spec fn obeys_from_spec() -> bool {
        true
    }

    open spec fn from_spec(v: std::io::Error) -> Self {
        ParseError::ErrorWhileParsingField(v)
    }
}

/// A breach of the protocol after which serving must stop.
#[derive(Debug, Clone, Copy, PartialEq, Eq, Structural)]
pub enum Fatal {
    /// A field declares a size that leaves no room for its type byte.
    EmptyField,
    /// An operation declares a size that leaves no room for its bin name.
    ShortOperation,
    /// A message goes on after its last operation.
    TrailingBytes,
    /// A message asks for what interception does not support.
    UnsupportedFeature,
}

/// Why a packet was not accepted.
#[derive(Debug)]
pub enum Failure {
    /// The bytes are no packet that can be read.
    Rejected(ParseError),
    /// The bytes breach the protocol.
    Fatal(Fatal),
}

impl View for Failure {
    type V = FailureView;

    open spec fn view(&self) -> FailureView {
        match *self {
            Failure::Rejected(e) => FailureView::Rejected(e.kind()),
            Failure::Fatal(f) => FailureView::Fatal(f),
        }
    }
}

/// What a failed read of the cursor means for the packet.
fn unreadable(err: std::io::Error) -> (r: Failure)
    ensures
        r@ == FailureView::Rejected(ErrorKind::ErrorWhileParsingField),
{
    Failure::Rejected(ParseError::from(err))
}

#[derive(Debug, Clone, Copy, PartialEq, Eq, Structural)]
pub enum AerospikeFieldType {
    Namespace,
    SetName,
    Key,
    RecordVersion,
    DigestRipe,
    MrtId,
    MrtDeadline,
    TRID,
    SocketTimeout,
    RecsPerSec,
    PidArray,
    DigestArray,
    SampleMax,
    LUT,
    BvalArray,
    IndexName,
    IndexRange,
    IndexContext,
    IndexType,
    UdfFilename,
    UdfFunction,
    UdfArglist,
    UdfOp,
    QueryBinlist,
    Batch,
    BatchWithSet,
    PredExp,
}

impl TryFrom<u8> for AerospikeFieldType {
    type Error = ();

    fn try_from(value: u8) -> (r: Result<Self, Self::Error>) {
        Ok(
            match value {
                0 => AerospikeFieldType::Namespace,
                1 => AerospikeFieldType::SetName,
                2 => AerospikeFieldType::Key,
                3 => AerospikeFieldType::RecordVersion,
                4 => AerospikeFieldType::DigestRipe,
                5 => AerospikeFieldType::MrtId,
                6 => AerospikeFieldType::MrtDeadline,
                7 => AerospikeFieldType::TRID,
                9 => AerospikeFieldType::SocketTimeout,
                10 => AerospikeFieldType::RecsPerSec,
                11 => AerospikeFieldType::PidArray,
                12 => AerospikeFieldType::DigestArray,
                13 => AerospikeFieldType::SampleMax,
                14 => AerospikeFieldType::LUT,
                15 => AerospikeFieldType::BvalArray,
                21 => AerospikeFieldType::IndexName,
                22 => AerospikeFieldType::IndexRange,
                23 => AerospikeFieldType::IndexContext,
                26 => AerospikeFieldType::IndexType,
                30 => AerospikeFieldType::UdfFilename,
                31 => AerospikeFieldType::UdfFunction,
                32 => AerospikeFieldType::UdfArglist,
                33 => AerospikeFieldType::UdfOp,
                40 => AerospikeFieldType::QueryBinlist,
                41 => AerospikeFieldType::Batch,
                42 => AerospikeFieldType::BatchWithSet,
                43 => AerospikeFieldType::PredExp,
                _ => return Err(()),
            },
        )
    }
}

impl vstd::std_specs::convert::TryFromSpecImpl<u8> for AerospikeFieldType {
    open spec fn obeys_try_from_spec() -> bool {
        true
    }

    open spec fn try_from_spec(v: u8) -> Result<Self, Self::Error> {
        match field_type_of(v) {
            Some(t) => Ok(t),
            None => Err(()),
        }
    }
}

#[derive(Debug)]
pub struct AerospikeField {
    pub size: u32,
    pub field_type: AerospikeFieldType,
    pub data: Vec<u8>,
}

impl View for AerospikeField {
    type V = FieldView;

    open spec fn view(&self) -> FieldView {
        FieldView { size: self.size, field_type: self.field_type, data: self.data@ }
    }
}

/// The views of a list of fields.
pub open spec fn field_views(fields: Seq<AerospikeField>) -> Seq<FieldView> {
    fields.map_values(|f: AerospikeField| f@)
}

impl AerospikeField {
    /// Reads `count` fields.
    fn parse(count: usize, cursor: &mut Cursor) -> (r: Result<Vec<AerospikeField>, Failure>)
        ensures
            match read_fields(Seq::empty(), count as nat, old(cursor)@) {
                Ok((fields, rest)) => r is Ok && field_views(r->Ok_0@) == fields && final(cursor)@
                    == rest,
                Err(e) => r is Err && r->Err_0@ == e,
            },
    {
        let mut fields: Vec<AerospikeField> = Vec::with_capacity(count);
        assert(field_views(fields@) =~= Seq::<FieldView>::empty());
        while fields.len() < count
            invariant
                fields@.len() <= count,
                read_fields(Seq::empty(), count as nat, old(cursor)@) == read_fields(
                    field_views(fields@),
                    (count - fields@.len()) as nat,
                    cursor@,
                ),
            decreases count - fields@.len(),
        {
            let ghost before = fields@;
            let field = Self::parse_one(cursor)?;
            fields.push(field);
            assert(field_views(fields@) =~= field_views(before).push(field@));
        }
        Ok(fields)
    }

    /// Reads one field.
    fn parse_one(cursor: &mut Cursor) -> (r: Result<AerospikeField, Failure>)
        ensures
            match read_field(old(cursor)@) {
                Ok((field, rest)) => r is Ok && r->Ok_0@ == field && final(cursor)@ == rest,
                Err(e) => r is Err && r->Err_0@ == e,
            },
    {
        let ghost start = cursor@;
        let size: u32 = match cursor.read_u32() {
            Ok(v) => v,
            Err(e) => return Err(unreadable(e)),
        };
        let code: u8 = match cursor.read_u8() {
            Ok(v) => v,
            Err(e) => return Err(unreadable(e)),
        };
        let field_type = match AerospikeFieldType::try_from(code) {
            Ok(t) => t,
            Err(_) => return Err(Failure::Rejected(ParseError::UnsupportedMessageType)),
        };
        if size == 0 {
            return Err(Failure::Fatal(Fatal::EmptyField));
        }
        assert(cursor@ =~= start.skip(5));
        // one byte of the size is the field type
        let data = match cursor.read_bytes(size as usize - 1) {
            Ok(v) => v,
            Err(e) => return Err(unreadable(e)),
        };
        assert(data@ =~= start.subrange(5, 4 + size));
        assert(cursor@ =~= start.skip(4 + size));
        Ok(AerospikeField { size, field_type, data })
    }
}

#[derive(Debug)]
pub struct AerospikeOperation {
    pub op_sz: u32,
    pub op: u8,
    pub particle_type: u8,
    pub bin_version: u8,
    pub bin_name_length: u8,
    pub bin_name: String,
    pub data: Vec<u8>,
}

impl View for AerospikeOperation {
    type V = OperationView;

    open spec fn view(&self) -> OperationView {
        OperationView {
            op_sz: self.op_sz,
            op: self.op,
            particle_type: self.particle_type,
            bin_version: self.bin_version,
            bin_name_length: self.bin_name_length,
            bin_name: self.bin_name@,
            data: self.data@,
        }
    }
}

/// The views of a list of operations.
pub open spec fn operation_views(operations: Seq<AerospikeOperation>) -> Seq<OperationView> {
    operations.map_values(|o: AerospikeOperation| o@)
}

impl Clone for AerospikeOperation {
    fn clone(&self) -> (r: Self)
        ensures
            r@ == self@,
    {
        let data = self.data.clone();
        assert(data@ =~= self.data@);
        AerospikeOperation {
            op_sz: self.op_sz,
            op: self.op,
            particle_type: self.particle_type,
            bin_version: self.bin_version,
            bin_name_length: self.bin_name_length,
            bin_name: self.bin_name.clone(),
            data,
        }
    }
}

impl AerospikeOperation {
    /// Reads `count` operations.
    fn parse(count: usize, cursor: &mut Cursor) -> (r: Result<Vec<AerospikeOperation>, Failure>)
        ensures
            match read_operations(Seq::empty(), count as nat, old(cursor)@) {
                Ok((operations, rest)) => r is Ok && operation_views(r->Ok_0@) == operations
                    && final(cursor)@ == rest,
                Err(e) => r is Err && r->Err_0@ == e,
            },
    {
        let mut operations: Vec<AerospikeOperation> = Vec::with_capacity(count);
        assert(operation_views(operations@) =~= Seq::<OperationView>::empty());
        while operations.len() < count
            invariant
                operations@.len() <= count,
                read_operations(Seq::empty(), count as nat, old(cursor)@) == read_operations(
                    operation_views(operations@),
                    (count - operations@.len()) as nat,
                    cursor@,
                ),
            decreases count - operations@.len(),
        {
            let ghost before = operations@;
            let operation = Self::parse_one(cursor)?;
            operations.push(operation);
            assert(operation_views(operations@) =~= operation_views(before).push(operation@));
        }
        Ok(operations)
    }

    /// Reads one operation.
    pub fn parse_one(cursor: &mut Cursor) -> (r: Result<AerospikeOperation, Failure>)
        ensures
            match read_operation(old(cursor)@) {
                Ok((operation, rest)) => r is Ok && r->Ok_0@ == operation && final(cursor)@ == rest,
                Err(e) => r is Err && r->Err_0@ == e,
            },
    {
        let ghost start = cursor@;
        let op_sz: u32 = match cursor.read_u32() {
            Ok(v) => v,
            Err(e) => return Err(unreadable(e)),
        };
        let op: u8 = match cursor.read_u8() {
            Ok(v) => v,
            Err(e) => return Err(unreadable(e)),
        };
        let particle_type: u8 = match cursor.read_u8() {
            Ok(v) => v,
            Err(e) => return Err(unreadable(e)),
        };
        let bin_version: u8 = match cursor.read_u8() {
            Ok(v) => v,
            Err(e) => return Err(unreadable(e)),
        };
        let bin_name_length: u8 = match cursor.read_u8() {
            Ok(v) => v,
            Err(e) => return Err(unreadable(e)),
        };
        assert(cursor@ =~= start.skip(8));
        let name = match cursor.read_bytes(bin_name_length as usize) {
            Ok(v) => v,
            Err(e) => return Err(unreadable(e)),
        };
        assert(name@ =~= start.subrange(8, 8 + start[7]));
        let bin_name = match String::from_utf8(name) {
            Ok(v) => v,
            Err(e) => return Err(Failure::Rejected(ParseError::ErrorWhileParsingMessage(e))),
        };
        if op_sz < 4 + bin_name_length as u32 {
            return Err(Failure::Fatal(Fatal::ShortOperation));
        }
        assert(cursor@ =~= start.skip(8 + start[7]));
        let data = match cursor.read_bytes((op_sz - 4 - bin_name_length as u32) as usize) {
            Ok(v) => v,
            Err(e) => return Err(unreadable(e)),
        };
        assert(data@ =~= start.subrange(8 + start[7], 4 + op_sz));
        assert(cursor@ =~= start.skip(4 + op_sz));
        Ok(
            AerospikeOperation {
                op_sz,
                op,
                particle_type,
                bin_version,
                bin_name_length,
                bin_name,
                data,
            },
        )
    }

    /// The bytes of the operation.
    pub fn to_bytes(self) -> (r: Vec<u8>)
        ensures
            r@ == operation_bytes(self@),
    {
        let mut ret: Vec<u8> = Vec::new();
        push_u32(&mut ret, self.op_sz);
        ret.push(self.op);
        ret.push(self.particle_type);
        ret.push(self.bin_version);
        ret.push(self.bin_name_length);
        let mut name = slice_to_vec(self.bin_name.as_str().as_bytes());
        ret.append(&mut name);
        let mut data = self.data;
        ret.append(&mut data);
        assert(ret@ =~= operation_bytes(self@));
        ret
    }

    /// An operation on the bin `bin_name`. The declared sizes are those of the
    /// name and the data, cut down to what their fields hold.
    pub fn new(op: u8, particle_type: u8, bin_version: u8, bin_name: &str, data: Vec<u8>) -> (r: Self)
        requires
            4 + encode_utf8(bin_name@).len() + data@.len() <= usize::MAX,
        ensures
            r@ == new_operation(op, particle_type, bin_version, bin_name@, data@),
    {
        let name_len: usize = bin_name.as_bytes().len();
        let op_sz: u32 = ((4 + name_len + data.len()) as u64 % 0x1_0000_0000) as u32;
        AerospikeOperation {
            op_sz,
            op,
            particle_type,
            bin_version,
            bin_name_length: (name_len % 0x100) as u8,
            bin_name: bin_name.to_owned(),
            data,
        }
    }

    /// The size of the operation, with its own size bytes.
    fn get_raw_byte_size(&self) -> (r: usize)
        requires
            4 + self.op_sz <= usize::MAX,
        ensures
            r == 4 + self.op_sz,
    {
        4 + self.op_sz as usize
    }
}

#[derive(Debug)]
pub struct AerospikeMessage {
    pub header_sz: u8,
    pub info1: u8,
    pub info2: u8,
    pub info3: u8,
    pub info4: u8,
    pub result_code: u8,
    pub generation: u32,
    pub record_ttl: u32,
    pub transaction_ttl: u32,
    pub n_fields: u16,
    pub n_ops: u16,
    pub fields: Vec<AerospikeField>,
    pub operations: Vec<AerospikeOperation>,
}

impl View for AerospikeMessage {
    type V = MessageView;

    open spec fn view(&self) -> MessageView {
        MessageView {
            header_sz: self.header_sz,
            info1: self.info1,
            info2: self.info2,
            info3: self.info3,
            info4: self.info4,
            result_code: self.result_code,
            generation: self.generation,
            record_ttl: self.record_ttl,
            transaction_ttl: self.transaction_ttl,
            n_fields: self.n_fields,
            n_ops: self.n_ops,
            fields: field_views(self.fields@),
            operations: operation_views(self.operations@),
        }
    }
}

impl AerospikeMessage {
    /// Reads a message from all of `data`.
    pub fn read(data: &[u8]) -> (r: Result<AerospikeMessage, Failure>)
        ensures
            match read_message(data@) {
                Ok(m) => r is Ok && r->Ok_0@ == m,
                Err(e) => r is Err && r->Err_0@ == e,
            },
    {
        if data.len() == 0 {
            return Err(Failure::Rejected(ParseError::HeaderSizeNotPresent));
        }
        if data.len() < data[0] as usize {
            return Err(Failure::Rejected(ParseError::MessageSizeMismatch));
        }
        let mut cursor = Cursor::new(data);
        let header_sz: u8 = match cursor.read_u8() {
            Ok(v) => v,
            Err(e) => return Err(unreadable(e)),
        };
        let info1: u8 = match cursor.read_u8() {
            Ok(v) => v,
            Err(e) => return Err(unreadable(e)),
        };
        let info2: u8 = match cursor.read_u8() {
            Ok(v) => v,
            Err(e) => return Err(unreadable(e)),
        };
        let info3: u8 = match cursor.read_u8() {
            Ok(v) => v,
            Err(e) => return Err(unreadable(e)),
        };
        let info4: u8 = match cursor.read_u8() {
            Ok(v) => v,
            Err(e) => return Err(unreadable(e)),
        };
        let result_code: u8 = match cursor.read_u8() {
            Ok(v) => v,
            Err(e) => return Err(unreadable(e)),
        };
        assert(cursor@ =~= data@.skip(6));
        let generation: u32 = match cursor.read_u32() {
            Ok(v) => v,
            Err(e) => return Err(unreadable(e)),
        };
        assert(cursor@ =~= data@.skip(10));
        let record_ttl: u32 = match cursor.read_u32() {
            Ok(v) => v,
            Err(e) => return Err(unreadable(e)),
        };
        assert(cursor@ =~= data@.skip(14));
        let transaction_ttl: u32 = match cursor.read_u32() {
            Ok(v) => v,
            Err(e) => return Err(unreadable(e)),
        };
        assert(cursor@ =~= data@.skip(18));
        let n_fields: u16 = match cursor.read_u16() {
            Ok(v) => v,
            Err(e) => return Err(unreadable(e)),
        };
        assert(cursor@ =~= data@.skip(20));
        let n_ops: u16 = match cursor.read_u16() {
            Ok(v) => v,
            Err(e) => return Err(unreadable(e)),
        };
        assert(cursor@ =~= data@.skip(22));
        let fields = AerospikeField::parse(n_fields as usize, &mut cursor)?;
        let operations = AerospikeOperation::parse(n_ops as usize, &mut cursor)?;
        if cursor.rest.len() != 0 {
            return Err(Failure::Fatal(Fatal::TrailingBytes));
        }
        Ok(
            AerospikeMessage {
                header_sz,
                info1,
                info2,
                info3,
                info4,
                result_code,
                generation,
                record_ttl,
                transaction_ttl,
                n_fields,
                n_ops,
                fields,
                operations,
            },
        )
    }

    /// Reads a message from all of `data`, which must not breach the protocol.
    pub fn from_bytes(data: &[u8]) -> (r: Result<AerospikeMessage, ParseError>)
        requires
            !is_fatal(read_message(data@)),
        ensures
            match read_message(data@) {
                Ok(m) => r is Ok && r->Ok_0@ == m,
                Err(e) => r is Err && e == FailureView::Rejected(r->Err_0.kind()),
            },
    {
        match Self::read(data) {
            Ok(m) => Ok(m),
            Err(Failure::Rejected(e)) => Err(e),
            Err(Failure::Fatal(_)) => vstd::pervasive::unreached(),
        }
    }

    /// The size of the message in bytes, as its operations declare it.
    pub fn get_raw_byte_size(&self) -> (r: usize)
        requires
            self.fields@.len() == 0,
            message_size(self@) <= usize::MAX,
        ensures
            r == message_size(self@),
    {
        let mut size: usize = MESSAGE_HEADER_LEN;
        let ghost views = operation_views(self.operations@);
        assert(views.skip(0) =~= views);
        let mut i: usize = 0;
        while i < self.operations.len()
            invariant
                i <= self.operations@.len(),
                views == operation_views(self.operations@),
                size + operations_size(views.skip(i as int)) == MESSAGE_HEADER_LEN
                    + operations_size(views),
                MESSAGE_HEADER_LEN + operations_size(views) <= usize::MAX,
            decreases self.operations@.len() - i,
        {
            assert(views.skip(i as int).drop_first() =~= views.skip(i as int + 1));
            size = size + self.operations[i].get_raw_byte_size();
            i = i + 1;
        }
        assert(views.skip(i as int) =~= Seq::<OperationView>::empty());
        size
    }

    /// The bytes of the message.
    pub fn to_bytes(self) -> (r: Vec<u8>)
        requires
            self.fields@.len() == 0,
        ensures
            r@ == message_bytes(self@),
    {
        let mut ret: Vec<u8> = Vec::new();
        ret.push(self.header_sz);
        ret.push(self.info1);
        ret.push(self.info2);
        ret.push(self.info3);
        ret.push(self.info4);
        ret.push(self.result_code);
        push_u32(&mut ret, self.generation);
        push_u32(&mut ret, self.record_ttl);
        push_u32(&mut ret, self.transaction_ttl);
        push_u16(&mut ret, self.n_fields);
        push_u16(&mut ret, self.n_ops);
        assert(ret@ =~= message_header_bytes(self@));
        let ghost views = operation_views(self.operations@);
        let ghost total = message_bytes(self@);
        assert(views.skip(0) =~= views);
        for operation in it: self.operations.into_iter()
            invariant
                it.seq() == self.operations@,
                views == operation_views(self.operations@),
                ret@ + operations_bytes(views.skip(it.index())) == total,
        {
            let ghost i = it.index();
            assert(views.skip(i).drop_first() =~= views.skip(i + 1));
            let mut bytes = operation.to_bytes();
            ret.append(&mut bytes);
        }
        assert(views.skip(views.len() as int) =~= Seq::<OperationView>::empty());
        assert(ret@ =~= total);
        ret
    }

    /// A message from its parts; the header size and the counts are filled in,
    /// the counts cut down to what their fields hold.
    pub fn new(
        info1: u8,
        info2: u8,
        info3: u8,
        info4: u8,
        result_code: u8,
        generation: u32,
        record_ttl: u32,
        transaction_ttl: u32,
        fields: Vec<AerospikeField>,
        operations: Vec<AerospikeOperation>,
    ) -> (r: Self)
        ensures
            r@ == new_message(
                (info1, info2, info3, info4),
                result_code,
                generation,
                record_ttl,
                transaction_ttl,
                field_views(fields@),
                operation_views(operations@),
            ),
            r.fields@ == fields@,
            r.operations@ == operations@,
    {
        AerospikeMessage {
            header_sz: 0x16,
            info1,
            info2,
            info3,
            info4,
            result_code,
            generation,
            record_ttl,
            transaction_ttl,
            n_fields: (fields.len() % 0x1_0000) as u16,
            n_ops: (operations.len() % 0x1_0000) as u16,
            fields,
            operations,
        }
    }

    /// The bytes of the packet that acknowledges a write.
    pub fn get_successful_write_packet(record_ttl: u32, transaction_ttl: u32) -> (r: Vec<u8>)
        ensures
            r@ == write_reply(record_ttl, transaction_ttl),
    {
        let mut ret: Vec<u8> = Vec::with_capacity(PACKET_HEADER_LEN + MESSAGE_HEADER_LEN);
        ret.push(PROTOCOL_VERSION);
        ret.push(MESSAGE_PACKET);
        // size
        push_u48(&mut ret, 0x16);
        ret.push(0x16);  // header_sz
        ret.push(0);  // info1
        ret.push(0);  // info2
        ret.push(0);  // info3
        ret.push(0);  // info4
        ret.push(0);  // result_code
        push_u32(&mut ret, 0);  // generation
        push_u32(&mut ret, record_ttl);
        push_u32(&mut ret, transaction_ttl);
        push_u16(&mut ret, 0);  // n_fields
        push_u16(&mut ret, 0);  // n_ops
        assert(ret@ =~= write_reply(record_ttl, transaction_ttl));
        ret
    }

    /// Whether the message reads a record.
    pub fn is_read_op(&self) -> (r: bool)
        ensures
            r == has_flag(self.info1, 0),
    {
        self.info1 & (1 << 0) != 0
    }

    /// Whether a read asks for every bin.
    pub fn get_all_bins(&self) -> (r: bool)
        ensures
            r == has_flag(self.info1, 1),
    {
        self.info1 & (1 << 1) != 0
    }

    /// Whether the message is a batch query.
    pub fn is_batch_query(&self) -> (r: bool)
        ensures
            r == has_flag(self.info1, 3),
    {
        self.info1 & (1 << 3) != 0
    }

    /// Whether the message writes a record.
    pub fn is_write_op(&self) -> (r: bool)
        ensures
            r == has_flag(self.info2, 0),
    {
        self.info2 & (1 << 0) != 0
    }

    /// Whether the message deletes a record.
    pub fn is_delete(&self) -> (r: bool)
        ensures
            r == has_flag(self.info2, 1),
    {
        self.info2 & (1 << 1) != 0
    }

    /// Whether a write may only create a record.
    pub fn is_create_ony(&self) -> (r: bool)
        ensures
            r == has_flag(self.info2, 5),
    {
        self.info2 & (1 << 5) != 0
    }
}

/// What a packet carries.
#[derive(Debug)]
pub enum AerospikePacketBody {
    Info(AerospikeInfo),
    Message(AerospikeMessage),
}

impl View for AerospikePacketBody {
    type V = BodyView;

    open spec fn view(&self) -> BodyView {
        match *self {
            AerospikePacketBody::Info(i) => BodyView::Info(i@),
            AerospikePacketBody::Message(m) => BodyView::Message(m@),
        }
    }
}

/// Whether a body can be written: a message without fields.
pub open spec fn writable(body: AerospikePacketBody) -> bool {
    body matches AerospikePacketBody::Message(m) && m.fields@.len() == 0
}

impl AerospikePacketBody {
    /// The table of an info packet holds no key twice.
    pub open spec fn wf(&self) -> bool {
        self matches AerospikePacketBody::Info(i) ==> i.wf()
    }

    /// Reads the body of a packet of type `msg_type` from all of `data`.
    pub fn read(msg_type: u8, data: &[u8]) -> (r: Result<AerospikePacketBody, Failure>)
        ensures
            match read_body(msg_type, data@) {
                Ok(b) => r is Ok && r->Ok_0@ == b && r->Ok_0.wf(),
                Err(e) => r is Err && r->Err_0@ == e,
            },
    {
        match msg_type {
            0x01 => match Self::parse_info_packet(data) {
                Ok(b) => Ok(b),
                Err(e) => Err(Failure::Rejected(e)),
            },
            0x03 => Ok(AerospikePacketBody::Message(AerospikeMessage::read(data)?)),
            _ => Err(Failure::Rejected(ParseError::UnsupportedMessageType)),
        }
    }

    /// Reads the body of a packet of type `msg_type` from all of `data`, which
    /// must not breach the protocol. The declared length `len` plays no part.
    pub fn from_bytes(msg_type: u8, len: usize, data: &[u8]) -> (r: Result<
        AerospikePacketBody,
        ParseError,
    >)
        requires
            !is_fatal(read_body(msg_type, data@)),
        ensures
            match read_body(msg_type, data@) {
                Ok(b) => r is Ok && r->Ok_0@ == b && r->Ok_0.wf(),
                Err(e) => r is Err && e == FailureView::Rejected(r->Err_0.kind()),
            },
    {
        match Self::read(msg_type, data) {
            Ok(b) => Ok(b),
            Err(Failure::Rejected(e)) => Err(e),
            Err(Failure::Fatal(_)) => vstd::pervasive::unreached(),
        }
    }

    /// The bytes of the body.
    pub fn to_bytes(self) -> (r: Vec<u8>)
        requires
            writable(self),
        ensures
            r@ == message_bytes(self@->Message_0),
    {
        match self {
            AerospikePacketBody::Message(m) => m.to_bytes(),
            AerospikePacketBody::Info(_) => vstd::pervasive::unreached(),
        }
    }

    /// Reads the table of an info packet.
    fn parse_info_packet(data: &[u8]) -> (r: Result<AerospikePacketBody, ParseError>)
        ensures
            match read_body(INFO_PACKET, data@) {
                Ok(b) => r is Ok && r->Ok_0@ == b && r->Ok_0.wf(),
                Err(e) => r is Err && e == FailureView::Rejected(r->Err_0.kind()),
            },
    {
        match AerospikeInfo::parse(data) {
            Ok(info) => Ok(AerospikePacketBody::Info(info)),
            Err(err) => Err(ParseError::ErrorWhileParsingMessage(err)),
        }
    }
}

#[derive(Debug)]
pub struct AerospikePacket {
    pub version: u8,
    pub message_type: u8,
    pub size: u64,
    pub body: AerospikePacketBody,
}

impl View for AerospikePacket {
    type V = PacketView;

    open spec fn view(&self) -> PacketView {
        PacketView {
            version: self.version,
            message_type: self.message_type,
            size: self.size,
            body: self.body@,
        }
    }
}

impl AerospikePacket {
    /// Reads a packet from all of `data`.
    pub fn read(data: &[u8]) -> (r: Result<AerospikePacket, Failure>)
        ensures
            match read_packet(data@) {
                Ok(p) => r is Ok && r->Ok_0@ == p && r->Ok_0.body.wf(),
                Err(e) => r is Err && r->Err_0@ == e,
            },
    {
        if data.len() < PACKET_HEADER_LEN {
            return Err(Failure::Rejected(ParseError::PacketTooShort));
        }
        let version: u8 = data[0];
        let message_type: u8 = data[1];
        // the size is the next six bytes, most significant first
        let size: u64 = read_u48(slice_subrange(data, 2, PACKET_HEADER_LEN));
        assert(data@.subrange(2, 8) =~= data@.skip(2).take(6));
        let body = AerospikePacketBody::read(
            message_type,
            slice_subrange(data, PACKET_HEADER_LEN, data.len()),
        )?;
        Ok(AerospikePacket { version, message_type, size, body })
    }

    /// Reads a packet from all of `data`, which must not breach the protocol.
    pub fn from_bytes(data: &[u8]) -> (r: Result<AerospikePacket, ParseError>)
        requires
            !is_fatal(read_packet(data@)),
        ensures
            match read_packet(data@) {
                Ok(p) => r is Ok && r->Ok_0@ == p && r->Ok_0.body.wf(),
                Err(e) => r is Err && e == FailureView::Rejected(r->Err_0.kind()),
            },
    {
        match Self::read(data) {
            Ok(p) => Ok(p),
            Err(Failure::Rejected(e)) => Err(e),
            Err(Failure::Fatal(_)) => vstd::pervasive::unreached(),
        }
    }

    /// A packet around a message; its size is that of the message.
    pub fn new(body: AerospikePacketBody) -> (r: AerospikePacket)
        requires
            writable(body),
            message_size(body@->Message_0) <= usize::MAX,
        ensures
            r@ == new_packet(body@->Message_0),
            r.body == body,
    {
        let size: usize = match &body {
            AerospikePacketBody::Message(m) => m.get_raw_byte_size(),
            AerospikePacketBody::Info(_) => vstd::pervasive::unreached(),
        };
        AerospikePacket {
            version: PROTOCOL_VERSION,
            message_type: MESSAGE_PACKET,
            size: size as u64,
            body,
        }
    }

    /// The bytes of the packet; of the size, the six low bytes are written.
    pub fn to_bytes(self) -> (r: Vec<u8>)
        requires
            writable(self.body),
        ensures
            r@ == packet_bytes(self@),
    {
        let mut ret: Vec<u8> = Vec::new();
        ret.push(self.version);
        ret.push(self.message_type);
        push_u48(&mut ret, self.size);
        let mut body = self.body.to_bytes();
        ret.append(&mut body);
        assert(ret@ =~= packet_bytes(self@));
        ret
    }
}

/// The key of a record: where a cached diff is filed.
#[derive(Debug, Clone, PartialEq, Eq, Hash)]
pub struct AerospikeKey {
    pub namespace: String,
    pub set: String,
    pub digest: Vec<u8>,
}

impl View for AerospikeKey {
    type V = KeyView;

    open spec fn view(&self) -> KeyView {
        KeyView { namespace: self.namespace@, set: self.set@, digest: self.digest@ }
    }
}

impl AerospikeKey {
    /// The view of an optional key.
    pub open spec fn opt_view(key: Option<AerospikeKey>) -> Option<KeyView> {
        match key {
            Some(k) => Some(k@),
            None => None,
        }
    }

    /// The index of the last field of type `t`.
    fn last_of(fields: &Vec<AerospikeField>, t: AerospikeFieldType) -> (r: Option<usize>)
        ensures
            match r {
                Some(i) => i < fields@.len() && last_field(field_views(fields@), t) == Some(
                    fields@[i as int]@,
                ),
                None => last_field(field_views(fields@), t) is None,
            },
    {
        let ghost views = field_views(fields@);
        let mut n: usize = fields.len();
        assert(views.take(n as int) =~= views);
        while n > 0
            invariant
                n <= fields@.len(),
                views == field_views(fields@),
                last_field(views, t) == last_field(views.take(n as int), t),
            decreases n,
        {
            assert(views.take(n as int).drop_last() =~= views.take(n - 1));
            if fields[n - 1].field_type == t {
                return Some(n - 1);
            }
            n = n - 1;
        }
        None
    }

    /// The key that the fields of a message name.
    pub fn parse(fields: Vec<AerospikeField>) -> (r: Option<Self>)
        ensures
            AerospikeKey::opt_view(r) == key_of(field_views(fields@)),
    {
        if fields.len() != 3 {
            return None;
        }
        let namespace: usize = Self::last_of(&fields, AerospikeFieldType::Namespace)?;
        let set: usize = Self::last_of(&fields, AerospikeFieldType::SetName)?;
        let digest: usize = Self::last_of(&fields, AerospikeFieldType::DigestRipe)?;
        let namespace_data = fields[namespace].data.clone();
        let set_data = fields[set].data.clone();
        let digest_data = fields[digest].data.clone();
        assert(namespace_data@ =~= fields@[namespace as int].data@);
        assert(set_data@ =~= fields@[set as int].data@);
        assert(digest_data@ =~= fields@[digest as int].data@);
        Some(
            AerospikeKey {
                namespace: String::from_utf8(namespace_data).ok()?,
                set: String::from_utf8(set_data).ok()?,
                digest: digest_data,
            },
        )
    }
}

} // verus!
