//! Laws of layout: where in the bytes each part of a packet stands, and which
//! bytes are no packet.
use vstd::prelude::*;
use vstd::utf8::{decode_utf8, decode_utf8_encode_utf8, encode_utf8, valid_utf8};

use crate::utils::bytes::{
    be16, be16_bytes, be32, be32_bytes, be48, be48_bytes, lemma_be16_bytes_round_trip,
    lemma_be32_bytes_round_trip, lemma_be32_round_trip, lemma_be48_bytes_round_trip,
    lemma_be48_round_trip,
};
use crate::utils::format::{
    field_code, field_type_of, has_flag, key_of, last_field, message_bytes, message_header_bytes,
    message_size, new_message, new_operation, new_packet, operation_bytes, operation_consistent,
    operations_bytes, operations_size, packet_bytes, read_body, read_field, read_fields,
    read_message, read_operation, read_operations, read_packet, BodyView, ErrorKind, FailureView,
    FieldView, KeyView, MessageView, OperationView, PacketView,
};
use crate::utils::info::{info_table, with_line, without_return, AerospikeInfo};
use crate::utils::laws::{
    all_consistent, law_field_types, law_info_of_joined, law_operation_round_trip,
    law_read_operation, lemma_header_round_trip, lemma_read_operations,
};
use crate::utils::parser::{
    field_views, operation_views, AerospikeField, AerospikeFieldType, AerospikeKey,
    AerospikeMessage, AerospikeOperation, AerospikePacket, AerospikePacketBody, Failure, Fatal,
    ParseError,
};
use crate::utils::text::find_byte;

verus! {

/// The bytes of a field: its size, the code of its type and its data.
pub open spec fn field_bytes(f: FieldView) -> Seq<u8> {
    be32_bytes(f.size) + seq![field_code(f.field_type)] + f.data
}

/// The bytes of a list of fields, one after the other.
pub open spec fn fields_bytes(fields: Seq<FieldView>) -> Seq<u8>
    decreases fields.len(),
{
    if fields.len() == 0 {
        Seq::empty()
    } else {
        field_bytes(fields[0]) + fields_bytes(fields.drop_first())
    }
}

/// Whether a field declares the size that it has.
pub open spec fn field_consistent(f: FieldView) -> bool {
    f.size == f.data.len() + 1
}

/// Whether every field declares the size that it has.
pub open spec fn all_fields_consistent(fields: Seq<FieldView>) -> bool {
    forall|i: int| 0 <= i < fields.len() ==> field_consistent(#[trigger] fields[i])
}

/// The bytes of a field that was read, and what is left behind it, are the
/// bytes that it was read from; and it declares the size that it has.
pub proof fn law_read_field(s: Seq<u8>)
    requires
        read_field(s) is Ok,
    ensures
        ({
            let (f, rest) = read_field(s)->Ok_0;
            &&& field_consistent(f)
            &&& be32_bytes(f.size) + seq![field_code(f.field_type)] + f.data + rest == s
        }),
{
    let (f, rest) = read_field(s)->Ok_0;
    lemma_be32_bytes_round_trip(s);
    law_field_types(s[4], f.field_type);
    assert(be32_bytes(f.size) + seq![field_code(f.field_type)] + f.data + rest =~= s);
}

/// A field that is written reads back as itself, whatever follows it.
pub proof fn law_field_round_trip(f: FieldView, tail: Seq<u8>)
    requires
        field_consistent(f),
    ensures
        read_field(field_bytes(f) + tail) == Ok::<(FieldView, Seq<u8>), FailureView>((f, tail)),
{
    let s = field_bytes(f) + tail;
    lemma_be32_round_trip(f.size, s.skip(4));
    assert(be32_bytes(f.size) + s.skip(4) =~= s);
    law_field_types(s[4], f.field_type);
    assert(s.subrange(5, 4 + f.size) =~= f.data);
    assert(s.skip(4 + f.size) =~= tail);
}

/// Why bytes are no field: fewer than five of them, or fewer than the size
/// says, break off; a code that stands for no type is not supported; and a
/// size of zero is a breach.
pub proof fn law_field_errors(s: Seq<u8>, t: AerospikeFieldType)
    ensures
        s.len() < 5 ==> read_field(s) == Err::<(FieldView, Seq<u8>), FailureView>(
            FailureView::Rejected(ErrorKind::ErrorWhileParsingField),
        ),
        s.len() >= 5 && field_type_of(s[4]) is None ==> read_field(s) == Err::<
            (FieldView, Seq<u8>),
            FailureView,
        >(FailureView::Rejected(ErrorKind::UnsupportedMessageType)),
        s.len() >= 5 && s[4] == field_code(t) && be32(s) == 0 ==> read_field(s) == Err::<
            (FieldView, Seq<u8>),
            FailureView,
        >(FailureView::Fatal(Fatal::EmptyField)),
        s.len() >= 5 && s[4] == field_code(t) && s.len() < 4 + be32(s) ==> read_field(s) == Err::<
            (FieldView, Seq<u8>),
            FailureView,
        >(FailureView::Rejected(ErrorKind::ErrorWhileParsingField)),
{
}

/// Why bytes are no operation: fewer of them than the name or the size needs
/// break off; a name that is no text cannot be read; and a size that leaves no
/// room for the name is a breach.
pub proof fn law_operation_errors(s: Seq<u8>)
    ensures
        s.len() < 8 || s.len() < 8 + s[7] ==> read_operation(s) == Err::<
            (OperationView, Seq<u8>),
            FailureView,
        >(FailureView::Rejected(ErrorKind::ErrorWhileParsingField)),
        s.len() >= 8 && s.len() >= 8 + s[7] && !valid_utf8(s.skip(8).take(s[7] as int))
            ==> read_operation(s) == Err::<(OperationView, Seq<u8>), FailureView>(
            FailureView::Rejected(ErrorKind::ErrorWhileParsingMessage),
        ),
        s.len() >= 8 && s.len() >= 8 + s[7] && valid_utf8(s.skip(8).take(s[7] as int))
            && be32(s) < 4 + s[7] ==> read_operation(s) == Err::<
            (OperationView, Seq<u8>),
            FailureView,
        >(FailureView::Fatal(Fatal::ShortOperation)),
        s.len() >= 8 && s.len() >= 8 + s[7] && valid_utf8(s.skip(8).take(s[7] as int)) && be32(s)
            >= 4 + s[7] && s.len() < 4 + be32(s) ==> read_operation(s) == Err::<
            (OperationView, Seq<u8>),
            FailureView,
        >(FailureView::Rejected(ErrorKind::ErrorWhileParsingField)),
{
    if s.len() >= 8 && s.len() >= 8 + s[7] {
        assert(s.skip(8).take(s[7] as int) =~= s.subrange(8, 8 + s[7]));
    }
}

/// Where each part of an operation stands.
pub proof fn law_operation_layout(s: Seq<u8>)
    requires
        read_operation(s) is Ok,
    ensures
        ({
            let (o, rest) = read_operation(s)->Ok_0;
            &&& be32_bytes(o.op_sz) + seq![o.op, o.particle_type, o.bin_version, o.bin_name_length]
                + encode_utf8(o.bin_name) + o.data + rest == s
            &&& o.bin_name_length == encode_utf8(o.bin_name).len()
            &&& o.op_sz == 4 + encode_utf8(o.bin_name).len() + o.data.len()
        }),
{
    law_read_operation(s);
}

/// Fields that were written are read before what follows them.
proof fn lemma_fields_first(done: Seq<FieldView>, n: nat, first: Seq<FieldView>, tail: Seq<u8>)
    requires
        all_fields_consistent(first),
        first.len() <= n,
    ensures
        read_fields(done, n, fields_bytes(first) + tail) == read_fields(
            done + first,
            (n - first.len()) as nat,
            tail,
        ),
    decreases first.len(),
{
    if first.len() == 0 {
        assert(fields_bytes(first) + tail =~= tail);
        assert(done + first =~= done);
    } else {
        let rest = first.drop_first();
        let after = fields_bytes(rest) + tail;
        let s = fields_bytes(first) + tail;
        assert(s =~= field_bytes(first[0]) + after);
        assert(read_fields(done, n, s) == read_fields(done.push(first[0]), (n - 1) as nat, after))
            by {
            law_field_round_trip(first[0], after);
        }
        assert forall|i: int| 0 <= i < rest.len() implies field_consistent(#[trigger] rest[i]) by {
            assert(rest[i] == first[i + 1]);
        }
        lemma_fields_first(done.push(first[0]), (n - 1) as nat, rest, tail);
        assert(done.push(first[0]) + rest =~= done + first);
    }
}

/// Operations that were written are read before what follows them.
proof fn lemma_operations_first(
    done: Seq<OperationView>,
    n: nat,
    first: Seq<OperationView>,
    tail: Seq<u8>,
)
    requires
        all_consistent(first),
        first.len() <= n,
    ensures
        read_operations(done, n, operations_bytes(first) + tail) == read_operations(
            done + first,
            (n - first.len()) as nat,
            tail,
        ),
    decreases first.len(),
{
    if first.len() == 0 {
        assert(operations_bytes(first) + tail =~= tail);
        assert(done + first =~= done);
    } else {
        let rest = first.drop_first();
        let after = operations_bytes(rest) + tail;
        let s = operations_bytes(first) + tail;
        assert(s =~= operation_bytes(first[0]) + after);
        assert(read_operations(done, n, s) == read_operations(
            done.push(first[0]),
            (n - 1) as nat,
            after,
        )) by {
            law_operation_round_trip(first[0], after);
        }
        assert forall|i: int| 0 <= i < rest.len() implies operation_consistent(
            #[trigger] rest[i],
        ) by {
            assert(rest[i] == first[i + 1]);
        }
        lemma_operations_first(done.push(first[0]), (n - 1) as nat, rest, tail);
        assert(done.push(first[0]) + rest =~= done + first);
    }
}

/// What reading `n` fields gives: they stand one after the other before what
/// is left, and each declares the size that it has.
proof fn lemma_fields_layout(done: Seq<FieldView>, n: nat, s: Seq<u8>)
    requires
        read_fields(done, n, s) is Ok,
    ensures
        ({
            let (fields, rest) = read_fields(done, n, s)->Ok_0;
            &&& fields.len() == done.len() + n
            &&& fields.take(done.len() as int) == done
            &&& all_fields_consistent(fields.skip(done.len() as int))
            &&& fields_bytes(fields.skip(done.len() as int)) + rest == s
        }),
    decreases n,
{
    let (fields, rest) = read_fields(done, n, s)->Ok_0;
    let d: int = done.len() as int;
    if n == 0 {
        assert(fields.take(d) =~= done);
        assert(fields.skip(d) =~= Seq::<FieldView>::empty());
        assert(fields_bytes(fields.skip(d)) + rest =~= s);
    } else {
        law_read_field(s);
        let (f, next) = read_field(s)->Ok_0;
        lemma_fields_layout(done.push(f), (n - 1) as nat, next);
        let later = fields.skip(d + 1);
        assert(fields.take(d + 1)[d] == f);
        assert(fields.take(d) =~= fields.take(d + 1).take(d));
        assert(done.push(f).take(d) =~= done);
        assert(fields.skip(d).drop_first() =~= later);
        assert(fields.skip(d)[0] == f);
        assert forall|i: int| 0 <= i < fields.skip(d).len() implies field_consistent(
            #[trigger] fields.skip(d)[i],
        ) by {
            if i > 0 {
                assert(fields.skip(d)[i] == later[i - 1]);
            }
        }
        assert(fields_bytes(fields.skip(d)) + rest =~= field_bytes(f) + (fields_bytes(later)
            + rest));
    }
}

/// Concatenation is associative.
proof fn lemma_add_assoc(a: Seq<u8>, b: Seq<u8>, c: Seq<u8>)
    ensures
        (a + b) + c == a + (b + c),
{
    assert((a + b) + c =~= a + (b + c));
}

/// The first bytes of a message are its header.
proof fn lemma_message_head(s: Seq<u8>)
    requires
        read_message(s) is Ok,
    ensures
        message_header_bytes(read_message(s)->Ok_0) + s.skip(22) == s,
{
    let m = read_message(s)->Ok_0;
    lemma_be32_bytes_round_trip(s.skip(6));
    lemma_be32_bytes_round_trip(s.skip(10));
    lemma_be32_bytes_round_trip(s.skip(14));
    lemma_be16_bytes_round_trip(s.skip(18));
    lemma_be16_bytes_round_trip(s.skip(20));
    assert(message_header_bytes(m) =~= s.take(22));
    assert(s.take(22) + s.skip(22) =~= s);
}

/// The header, the fields and the operations of a message are its bytes.
proof fn lemma_message_parts(s: Seq<u8>)
    requires
        read_message(s) is Ok,
    ensures
        ({
            let m = read_message(s)->Ok_0;
            &&& s == message_header_bytes(m) + fields_bytes(m.fields) + operations_bytes(
                m.operations,
            )
            &&& m.fields.len() == m.n_fields
            &&& m.operations.len() == m.n_ops
            &&& all_fields_consistent(m.fields)
            &&& all_consistent(m.operations)
            &&& s.len() >= m.header_sz
        }),
{
    let m = read_message(s)->Ok_0;
    let body = s.skip(22);
    let (fields, rest) = read_fields(Seq::empty(), m.n_fields as nat, body)->Ok_0;
    let ops = operations_bytes(m.operations);
    lemma_fields_layout(Seq::empty(), m.n_fields as nat, body);
    lemma_read_operations(Seq::empty(), m.n_ops as nat, rest);
    assert(fields.skip(0) =~= fields);
    assert(m.operations.skip(0) =~= m.operations);
    assert(ops + Seq::<u8>::empty() =~= ops);
    assert(read_operations(Seq::empty(), m.n_ops as nat, rest)->Ok_0.1 =~= Seq::<u8>::empty());
    lemma_message_head(s);
    lemma_add_assoc(message_header_bytes(m), fields_bytes(m.fields), ops);
}

/// Where each part of a message stands: the bytes of the header, then those of
/// the fields, then those of the operations are the whole message, and there
/// are as many of each as the header says.
pub proof fn law_message_layout(s: Seq<u8>)
    requires
        read_message(s) is Ok,
    ensures
        ({
            let m = read_message(s)->Ok_0;
            &&& s == seq![m.header_sz, m.info1, m.info2, m.info3, m.info4, m.result_code]
                + be32_bytes(m.generation) + be32_bytes(m.record_ttl) + be32_bytes(
                m.transaction_ttl,
            ) + be16_bytes(m.n_fields) + be16_bytes(m.n_ops) + fields_bytes(m.fields)
                + operations_bytes(m.operations)
            &&& m.fields.len() == m.n_fields
            &&& m.operations.len() == m.n_ops
            &&& all_fields_consistent(m.fields)
            &&& all_consistent(m.operations)
            &&& s.len() >= m.header_sz
        }),
{
    lemma_message_parts(s);
}

/// Whether a message says of itself what it holds.
pub open spec fn says_what_it_holds(m: MessageView) -> bool {
    &&& m.n_fields == m.fields.len()
    &&& m.n_ops == m.operations.len()
    &&& all_fields_consistent(m.fields)
    &&& all_consistent(m.operations)
    &&& m.header_sz <= 22 + fields_bytes(m.fields).len() + operations_bytes(m.operations).len()
}

/// Every message that says of itself what it holds is read from its header,
/// its fields and its operations, one after the other.
pub proof fn law_message_reads(m: MessageView)
    requires
        says_what_it_holds(m),
    ensures
        read_message(
            message_header_bytes(m) + (fields_bytes(m.fields) + operations_bytes(m.operations)),
        ) == Ok::<MessageView, FailureView>(m),
{
    let ops = operations_bytes(m.operations);
    lemma_header_round_trip(m, fields_bytes(m.fields) + ops);
    lemma_fields_first(Seq::empty(), m.n_fields as nat, m.fields, ops);
    assert(Seq::<FieldView>::empty() + m.fields =~= m.fields);
    assert(ops + Seq::<u8>::empty() =~= ops);
    lemma_operations_first(Seq::empty(), m.n_ops as nat, m.operations, Seq::empty());
    assert(Seq::<OperationView>::empty() + m.operations =~= m.operations);
}

/// A message fails at its first field that cannot be read, with the error of
/// that field.
pub proof fn law_first_bad_field(m: MessageView, good: Seq<FieldView>, bad: Seq<u8>)
    requires
        all_fields_consistent(good),
        good.len() < m.n_fields,
        read_field(bad) is Err,
        m.header_sz <= 22 + fields_bytes(good).len() + bad.len(),
    ensures
        read_message(message_header_bytes(m) + (fields_bytes(good) + bad)) == Err::<
            MessageView,
            FailureView,
        >(read_field(bad)->Err_0),
{
    lemma_header_round_trip(m, fields_bytes(good) + bad);
    lemma_fields_first(Seq::empty(), m.n_fields as nat, good, bad);
}

/// A message fails at its first operation that cannot be read, with the error
/// of that operation.
pub proof fn law_first_bad_operation(m: MessageView, good: Seq<OperationView>, bad: Seq<u8>)
    requires
        m.n_fields == m.fields.len(),
        all_fields_consistent(m.fields),
        all_consistent(good),
        good.len() < m.n_ops,
        read_operation(bad) is Err,
        m.header_sz <= 22 + fields_bytes(m.fields).len() + operations_bytes(good).len() + bad.len(),
    ensures
        read_message(
            message_header_bytes(m) + (fields_bytes(m.fields) + (operations_bytes(good) + bad)),
        ) == Err::<MessageView, FailureView>(read_operation(bad)->Err_0),
{
    let tail = operations_bytes(good) + bad;
    lemma_header_round_trip(m, fields_bytes(m.fields) + tail);
    lemma_fields_first(Seq::empty(), m.n_fields as nat, m.fields, tail);
    assert(Seq::<FieldView>::empty() + m.fields =~= m.fields);
    lemma_operations_first(Seq::empty(), m.n_ops as nat, good, bad);
}

/// Bytes behind a message are a breach.
pub proof fn law_bytes_behind_message(s: Seq<u8>, extra: Seq<u8>)
    requires
        read_message(s) is Ok,
        extra.len() > 0,
    ensures
        read_message(s + extra) == Err::<MessageView, FailureView>(
            FailureView::Fatal(Fatal::TrailingBytes),
        ),
{
    let m = read_message(s)->Ok_0;
    let ops = operations_bytes(m.operations);
    let head = message_header_bytes(m);
    let fields = fields_bytes(m.fields);
    let body = fields + (ops + extra);
    lemma_message_parts(s);
    lemma_add_assoc(head + fields, ops, extra);
    lemma_add_assoc(head, fields, ops + extra);
    assert(s + extra == head + body);
    lemma_header_round_trip(m, body);
    lemma_fields_first(Seq::empty(), m.n_fields as nat, m.fields, ops + extra);
    assert(Seq::<FieldView>::empty() + m.fields =~= m.fields);
    lemma_operations_first(Seq::empty(), m.n_ops as nat, m.operations, extra);
}

/// Without a byte, with fewer bytes than the first of them says, and with
/// fewer than a header has, there is no message.
pub proof fn law_message_header_errors(s: Seq<u8>)
    ensures
        s.len() == 0 ==> read_message(s) == Err::<MessageView, FailureView>(
            FailureView::Rejected(ErrorKind::HeaderSizeNotPresent),
        ),
        0 < s.len() < s[0] ==> read_message(s) == Err::<MessageView, FailureView>(
            FailureView::Rejected(ErrorKind::MessageSizeMismatch),
        ),
        0 < s.len() < 22 && s[0] <= s.len() ==> read_message(s) == Err::<MessageView, FailureView>(
            FailureView::Rejected(ErrorKind::ErrorWhileParsingField),
        ),
{
}

/// Where each part of a packet stands, and which bytes are a packet: eight
/// bytes of header, and behind them a message or text, as the type says. The
/// declared size is not held against what follows.
pub proof fn law_packet_layout(s: Seq<u8>)
    ensures
        s.len() < 8 ==> read_packet(s) == Err::<PacketView, FailureView>(
            FailureView::Rejected(ErrorKind::PacketTooShort),
        ),
        s.len() >= 8 && s[1] != 1 && s[1] != 3 ==> read_packet(s) == Err::<PacketView, FailureView>(
            FailureView::Rejected(ErrorKind::UnsupportedMessageType),
        ),
        s.len() >= 8 && s[1] == 1 && !valid_utf8(s.skip(8)) ==> read_packet(s) == Err::<
            PacketView,
            FailureView,
        >(FailureView::Rejected(ErrorKind::ErrorWhileParsingMessage)),
        s.len() >= 8 && s[1] == 1 && valid_utf8(s.skip(8)) ==> {
            &&& read_packet(s) matches Ok(p)
            &&& p.body == BodyView::Info(info_table(Map::empty(), s.skip(8)))
        },
        s.len() >= 8 && s[1] == 3 && read_message(s.skip(8)) is Err ==> read_packet(s) == Err::<
            PacketView,
            FailureView,
        >(read_message(s.skip(8))->Err_0),
        s.len() >= 8 && s[1] == 3 && read_message(s.skip(8)) is Ok ==> {
            &&& read_packet(s) matches Ok(p)
            &&& p.body == BodyView::Message(read_message(s.skip(8))->Ok_0)
        },
        read_packet(s) matches Ok(p) ==> seq![p.version, p.message_type] + be48_bytes(p.size)
            == s.take(8),
{
    if s.len() >= 8 {
        lemma_be48_bytes_round_trip(s.skip(2));
        if let Ok(p) = read_packet(s) {
            assert(seq![p.version, p.message_type] + be48_bytes(p.size) =~= s.take(8));
        }
    }
}

/// The body of a packet is read as the packet is.
pub proof fn law_body_of_packet(s: Seq<u8>)
    requires
        s.len() >= 8,
    ensures
        match read_packet(s) {
            Ok(p) => read_body(s[1], s.skip(8)) == Ok::<BodyView, FailureView>(p.body),
            Err(e) => read_body(s[1], s.skip(8)) == Err::<BodyView, FailureView>(e),
        },
{
}

/// The six-byte number is a two-byte and a four-byte number, the first the
/// more significant; and of a number that is too large the low bytes are
/// written.
pub proof fn law_six_bytes(s: Seq<u8>, v: u64)
    ensures
        s.len() >= 6 ==> be48(s) == be16(s) * 0x1_0000_0000 + be32(s.skip(2)),
        be48(be48_bytes(v)) == v % 0x1_0000_0000_0000,
        be48_bytes(v).len() == 6,
{
    let w: u64 = v % 0x1_0000_0000_0000;
    assert(v / 0x100_0000_0000 % 0x100 == w / 0x100_0000_0000 % 0x100) by (bit_vector)
        requires
            w == v % 0x1_0000_0000_0000,
    ;
    assert(v / 0x1_0000_0000 % 0x100 == w / 0x1_0000_0000 % 0x100) by (bit_vector)
        requires
            w == v % 0x1_0000_0000_0000,
    ;
    assert(v / 0x100_0000 % 0x100 == w / 0x100_0000 % 0x100) by (bit_vector)
        requires
            w == v % 0x1_0000_0000_0000,
    ;
    assert(v / 0x1_0000 % 0x100 == w / 0x1_0000 % 0x100) by (bit_vector)
        requires
            w == v % 0x1_0000_0000_0000,
    ;
    assert(v / 0x100 % 0x100 == w / 0x100 % 0x100) by (bit_vector)
        requires
            w == v % 0x1_0000_0000_0000,
    ;
    assert(v % 0x100 == w % 0x100) by (bit_vector)
        requires
            w == v % 0x1_0000_0000_0000,
    ;
    assert(be48_bytes(v) =~= be48_bytes(w));
    lemma_be48_round_trip(w, Seq::empty());
    assert(be48_bytes(w) + Seq::<u8>::empty() =~= be48_bytes(w));
}

/// A flag is one binary digit of its byte.
pub proof fn law_flags(flags: u8)
    ensures
        has_flag(flags, 0) <==> flags % 2 == 1,
        has_flag(flags, 1) <==> flags / 2 % 2 == 1,
        has_flag(flags, 3) <==> flags / 8 % 2 == 1,
        has_flag(flags, 5) <==> flags / 32 % 2 == 1,
{
    assert(flags & (1u8 << 0) != 0 <==> flags % 2 == 1) by (bit_vector);
    assert(flags & (1u8 << 1) != 0 <==> flags / 2 % 2 == 1) by (bit_vector);
    assert(flags & (1u8 << 3) != 0 <==> flags / 8 % 2 == 1) by (bit_vector);
    assert(flags & (1u8 << 5) != 0 <==> flags / 32 % 2 == 1) by (bit_vector);
}

/// Three fields, a namespace, a set and a digest in any order, name the key
/// that their data spell, if namespace and set are text.
pub proof fn law_key_of_fields(fields: Seq<FieldView>, n: int, t: int, d: int)
    requires
        fields.len() == 3,
        0 <= n < 3,
        0 <= t < 3,
        0 <= d < 3,
        fields[n].field_type == AerospikeFieldType::Namespace,
        fields[t].field_type == AerospikeFieldType::SetName,
        fields[d].field_type == AerospikeFieldType::DigestRipe,
    ensures
        valid_utf8(fields[n].data) && valid_utf8(fields[t].data) ==> {
            &&& key_of(fields) matches Some(key)
            &&& key.namespace == decode_utf8(fields[n].data)
            &&& key.set == decode_utf8(fields[t].data)
            &&& key.digest == fields[d].data
            &&& encode_utf8(key.namespace) == fields[n].data
            &&& encode_utf8(key.set) == fields[t].data
        },
        !valid_utf8(fields[n].data) || !valid_utf8(fields[t].data) ==> key_of(fields) is None,
{
    reveal_with_fuel(last_field, 4);
    if valid_utf8(fields[n].data) && valid_utf8(fields[t].data) {
        decode_utf8_encode_utf8(fields[n].data);
        decode_utf8_encode_utf8(fields[t].data);
    }
}

/// Only three fields with a namespace, a set and a digest among them name a
/// key.
pub proof fn law_key_needs_fields(fields: Seq<FieldView>)
    requires
        key_of(fields) is Some,
    ensures
        fields.len() == 3,
        exists|n: int|
            0 <= n < 3 && (#[trigger] fields[n]).field_type == AerospikeFieldType::Namespace,
        exists|t: int|
            0 <= t < 3 && (#[trigger] fields[t]).field_type == AerospikeFieldType::SetName,
        exists|d: int|
            0 <= d < 3 && (#[trigger] fields[d]).field_type == AerospikeFieldType::DigestRipe,
{
    lemma_last_field_is_one(fields, AerospikeFieldType::Namespace);
    lemma_last_field_is_one(fields, AerospikeFieldType::SetName);
    lemma_last_field_is_one(fields, AerospikeFieldType::DigestRipe);
}

/// What is found as the last field of a type is a field of that type.
proof fn lemma_last_field_is_one(fields: Seq<FieldView>, t: AerospikeFieldType)
    ensures
        last_field(fields, t) is Some ==> exists|i: int|
            0 <= i < fields.len() && (#[trigger] fields[i]).field_type == t,
    decreases fields.len(),
{
    if fields.len() > 0 && fields.last().field_type != t {
        let front = fields.drop_last();
        lemma_last_field_is_one(front, t);
        if last_field(front, t) is Some {
            let i = choose|i: int| 0 <= i < front.len() && (#[trigger] front[i]).field_type == t;
            assert(fields[i].field_type == t);
        }
    } else if fields.len() > 0 {
        assert(fields[fields.len() - 1].field_type == t);
    }
}

/// What is written of a list of operations is what is written of its parts,
/// one after the other, and so is its size; and where each part of a written
/// operation stands.
pub proof fn law_operations_written(a: Seq<OperationView>, b: Seq<OperationView>, o: OperationView)
    ensures
        operations_bytes(a + b) == operations_bytes(a) + operations_bytes(b),
        operations_size(a + b) == operations_size(a) + operations_size(b),
        operations_bytes(seq![o]) == be32_bytes(o.op_sz) + seq![
            o.op,
            o.particle_type,
            o.bin_version,
            o.bin_name_length,
        ] + encode_utf8(o.bin_name) + o.data,
        operations_size(seq![o]) == 4 + o.op_sz,
        operations_bytes(Seq::empty()) == Seq::<u8>::empty(),
        operations_size(Seq::empty()) == 0,
    decreases a.len(),
{
    reveal_with_fuel(operations_bytes, 2);
    reveal_with_fuel(operations_size, 2);
    assert(seq![o].drop_first() =~= Seq::<OperationView>::empty());
    assert(operations_bytes(seq![o]) =~= operation_bytes(o));
    if a.len() == 0 {
        assert(a + b =~= b);
        assert(operations_bytes(a) + operations_bytes(b) =~= operations_bytes(b));
    } else {
        law_operations_written(a.drop_first(), b, o);
        assert((a + b).drop_first() =~= a.drop_first() + b);
        assert(operations_bytes(a + b) =~= operations_bytes(a) + operations_bytes(b));
    }
}

/// Where each part of a written message and of a written packet stands, and
/// what size is counted for the message.
pub proof fn law_written_layout(m: MessageView, version: u8, message_type: u8, size: u64)
    ensures
        message_bytes(m) == seq![
            m.header_sz,
            m.info1,
            m.info2,
            m.info3,
            m.info4,
            m.result_code,
        ] + be32_bytes(m.generation) + be32_bytes(m.record_ttl) + be32_bytes(m.transaction_ttl)
            + be16_bytes(m.n_fields) + be16_bytes(m.n_ops) + operations_bytes(m.operations),
        message_size(m) == 22 + operations_size(m.operations),
        packet_bytes(PacketView { version, message_type, size, body: BodyView::Message(m) })
            == seq![version, message_type] + be48_bytes(size) + message_bytes(m),
{
}

/// What is built from parts holds these parts: the counts and sizes are right
/// up to what their fields hold, and the rest is fixed.
pub proof fn law_built_from_parts(
    info: (u8, u8, u8, u8),
    result_code: u8,
    times: (u32, u32, u32),
    fields: Seq<FieldView>,
    operations: Seq<OperationView>,
)
    ensures
        ({
            let m = new_message(info, result_code, times.0, times.1, times.2, fields, operations);
            let p = new_packet(m);
            &&& m.header_sz == 22 && m.result_code == result_code
            &&& m.info1 == info.0 && m.info2 == info.1 && m.info3 == info.2 && m.info4 == info.3
            &&& m.generation == times.0 && m.record_ttl == times.1 && m.transaction_ttl == times.2
            &&& m.fields == fields && m.operations == operations
            &&& (fields.len() - m.n_fields) % 0x1_0000 == 0
            &&& (operations.len() - m.n_ops) % 0x1_0000 == 0
            &&& fields.len() <= u16::MAX ==> m.n_fields == fields.len()
            &&& operations.len() <= u16::MAX ==> m.n_ops == operations.len()
            &&& p.version == 2 && p.message_type == 3 && p.body == BodyView::Message(m)
            &&& 22 + operations_size(operations) <= u64::MAX ==> p.size == 22 + operations_size(
                operations,
            )
        }),
{
}

/// An operation that is made from a name and data holds these; its sizes are
/// right up to what their fields hold.
pub proof fn law_operation_from_parts(
    op: u8,
    particle_type: u8,
    bin_version: u8,
    bin_name: Seq<char>,
    data: Seq<u8>,
)
    ensures
        ({
            let o = new_operation(op, particle_type, bin_version, bin_name, data);
            let name = encode_utf8(bin_name).len();
            &&& o.op == op && o.particle_type == particle_type && o.bin_version == bin_version
            &&& o.bin_name == bin_name && o.data == data
            &&& (4 + name + data.len() - o.op_sz) % 0x1_0000_0000 == 0
            &&& (name - o.bin_name_length) % 0x100 == 0
        }),
{
}

/// A line `key<TAB>value` behind whole lines sets the key to the value, or to
/// none if the value is empty, however the line ends. A carriage return is
/// part of the end only before a line feed.
pub proof fn law_info_line(first: Seq<u8>, key: Seq<u8>, value: Seq<u8>, end: Seq<u8>)
    requires
        first.len() == 0 || first.last() == 0x0a,
        !key.contains(0x09),
        !key.contains(0x0a),
        !value.contains(0x0a),
        end == seq![0x0du8, 0x0a] || end == Seq::<u8>::empty() || end == seq![0x0au8] && (
        value.len() == 0 || value.last() != 0x0d),
    ensures
        info_table(Map::empty(), first + (key + seq![0x09u8] + value + end)) == info_table(
            Map::empty(),
            first,
        ).insert(
            decode_utf8(key),
            if value.len() == 0 {
                None
            } else {
                Some(decode_utf8(value))
            },
        ),
{
    let none = Map::<Seq<char>, Option<Seq<char>>>::empty();
    let line = key + seq![0x09u8] + value;
    let s = line + end;
    law_info_of_joined(first, s);
    assert(!line.contains(0x0a)) by {
        assert forall|i: int| 0 <= i < line.len() implies line[i] != 0x0a by {
            if i < key.len() {
                assert(line[i] == key[i]);
            } else if i > key.len() {
                assert(line[i] == value[i - key.len() - 1]);
            }
        }
    }
    lemma_find_first(line, key.len() as int, 0x09);
    assert(line.take(key.len() as int) =~= key);
    assert(line.skip(key.len() as int + 1) =~= value);
    lemma_one_line(line, end);
    let after = info_table(none, first);
    assert(info_table(none, s) =~= none.insert(
        decode_utf8(key),
        if value.len() == 0 {
            None
        } else {
            Some(decode_utf8(value))
        },
    ));
    assert(after.union_prefer_right(info_table(none, s)) =~= after.insert(
        decode_utf8(key),
        if value.len() == 0 {
            None
        } else {
            Some(decode_utf8(value))
        },
    ));
}

/// A line without a tab behind whole lines changes nothing, however it ends.
pub proof fn law_info_line_without_tab(first: Seq<u8>, line: Seq<u8>, end: Seq<u8>)
    requires
        first.len() == 0 || first.last() == 0x0a,
        !line.contains(0x09),
        !line.contains(0x0a),
        end == seq![0x0du8, 0x0a] || end == Seq::<u8>::empty() || end == seq![0x0au8],
    ensures
        info_table(Map::empty(), first + (line + end)) == info_table(Map::empty(), first),
{
    let none = Map::<Seq<char>, Option<Seq<char>>>::empty();
    let after = info_table(none, first);
    law_info_of_joined(first, line + end);
    let shown = if end.len() == 1 && line.len() > 0 && line.last() == 0x0d {
        line.drop_last()
    } else {
        line
    };
    let shown_end = if end.len() == 1 && line.len() > 0 && line.last() == 0x0d {
        seq![0x0du8, 0x0a]
    } else {
        end
    };
    assert(shown + shown_end =~= line + end);
    assert(!shown.contains(0x09) && !shown.contains(0x0a)) by {
        assert forall|i: int| 0 <= i < shown.len() implies shown[i] != 0x09 && shown[i] != 0x0a by {
            assert(shown[i] == line[i]);
        }
    }
    lemma_find_none(shown, 0x09);
    lemma_one_line(shown, shown_end);
    assert(after.union_prefer_right(none) =~= after);
}

/// A byte is found at the first index at which it stands.
proof fn lemma_find_first(s: Seq<u8>, i: int, b: u8)
    requires
        0 <= i < s.len(),
        s[i] == b,
        !s.take(i).contains(b),
    ensures
        find_byte(s, b) == i,
    decreases s.len(),
{
    if i > 0 {
        assert(s.take(i)[0] == s[0]);
        assert(s[0] != b);
        let t = s.drop_first();
        let front = t.take(i - 1);
        assert forall|j: int| 0 <= j < front.len() implies #[trigger] front[j] != b by {
            assert(front[j] == s.take(i)[j + 1]);
        }
        lemma_find_first(t, i - 1, b);
    }
}

/// A byte that does not occur is not found.
proof fn lemma_find_none(s: Seq<u8>, b: u8)
    requires
        !s.contains(b),
    ensures
        find_byte(s, b) == s.len(),
    decreases s.len(),
{
    if s.len() > 0 {
        assert(s[0] != b);
        let t = s.drop_first();
        assert forall|j: int| 0 <= j < t.len() implies t[j] != b by {
            assert(t[j] == s[j + 1]);
        }
        lemma_find_none(t, b);
    }
}

/// What one line gives, whatever of the three ends it has.
proof fn lemma_one_line(line: Seq<u8>, end: Seq<u8>)
    requires
        !line.contains(0x0a),
        end == seq![0x0du8, 0x0a] || end == Seq::<u8>::empty() || end == seq![0x0au8] && (line.len()
            == 0 || line.last() != 0x0d),
    ensures
        info_table(Map::empty(), line + end) == with_line(Map::empty(), line),
{
    let s = line + end;
    let none = Map::<Seq<char>, Option<Seq<char>>>::empty();
    reveal_with_fuel(info_table, 2);
    if end.len() == 0 {
        assert(s =~= line);
        lemma_find_none(line, 0x0a);
    } else {
        let at: int = s.len() - 1;
        let shown = s.take(at);
        assert forall|i: int| 0 <= i < at implies shown[i] != 0x0a by {
            if i < line.len() {
                assert(shown[i] == line[i]);
            }
        }
        lemma_find_first(s, at, 0x0a);
        assert(without_return(shown) =~= line);
        assert(s.skip(at + 1) =~= Seq::<u8>::empty());
        assert(info_table(none, s) == info_table(with_line(none, line), s.skip(at + 1)));
    }
}

/// A field, an operation and a message show every part that they have.
pub proof fn law_parts_are_shown(f: AerospikeField, o: AerospikeOperation, m: AerospikeMessage)
    ensures
        f@.size == f.size && f@.field_type == f.field_type && f@.data == f.data@,
        o@.op_sz == o.op_sz && o@.op == o.op && o@.particle_type == o.particle_type,
        o@.bin_version == o.bin_version && o@.bin_name_length == o.bin_name_length,
        o@.bin_name == o.bin_name@ && o@.data == o.data@,
        m@.header_sz == m.header_sz && m@.result_code == m.result_code,
        m@.info1 == m.info1 && m@.info2 == m.info2 && m@.info3 == m.info3 && m@.info4 == m.info4,
        m@.generation == m.generation && m@.record_ttl == m.record_ttl,
        m@.transaction_ttl == m.transaction_ttl,
        m@.n_fields == m.n_fields && m@.n_ops == m.n_ops,
        m@.fields.len() == m.fields@.len() && m@.operations.len() == m.operations@.len(),
        forall|i: int| 0 <= i < m.fields@.len() ==> #[trigger] m@.fields[i] == m.fields@[i]@,
        forall|i: int|
            0 <= i < m.operations@.len() ==> #[trigger] m@.operations[i] == m.operations@[i]@,
{
}

/// A list of fields or operations shows each of them, in order.
pub proof fn law_lists_are_shown(fields: Seq<AerospikeField>, operations: Seq<AerospikeOperation>)
    ensures
        field_views(fields).len() == fields.len(),
        operation_views(operations).len() == operations.len(),
        forall|i: int| 0 <= i < fields.len() ==> #[trigger] field_views(fields)[i] == fields[i]@,
        forall|i: int|
            0 <= i < operations.len() ==> #[trigger] operation_views(operations)[i]
                == operations[i]@,
{
}

/// A packet and a key show every part that they have.
pub proof fn law_packet_and_key_are_shown(p: AerospikePacket, key: AerospikeKey)
    ensures
        p@.version == p.version && p@.message_type == p.message_type && p@.size == p.size,
        match p.body {
            AerospikePacketBody::Message(m) => p@.body == BodyView::Message(m@),
            AerospikePacketBody::Info(i) => p@.body == BodyView::Info(i@),
        },
        key@.namespace == key.namespace@ && key@.set == key.set@ && key@.digest == key.digest@,
        AerospikeKey::opt_view(Some(key)) == Some(key@),
        AerospikeKey::opt_view(None) == None::<KeyView>,
{
}

/// A table that holds no key twice shows each entry that it has, and no other.
pub proof fn law_table_is_shown(info: AerospikeInfo, k: Seq<char>)
    requires
        info.wf(),
    ensures
        forall|i: int|
            0 <= i < info.entries@.len() && (#[trigger] info.entries@[i]).0@ == k ==> {
                &&& info@.contains_key(k)
                &&& info@[k] == match info.entries@[i].1 {
                    Some(v) => Some(v@),
                    None => None,
                }
            },
        info@.contains_key(k) ==> exists|i: int|
            0 <= i < info.entries@.len() && (#[trigger] info.entries@[i]).0@ == k,
{
    assert forall|i: int|
        0 <= i < info.entries@.len() && (#[trigger] info.entries@[i]).0@ == k implies {
        &&& info@.contains_key(k)
        &&& info@[k] == match info.entries@[i].1 {
            Some(v) => Some(v@),
            None => None,
        }
    } by {
        assert(info.entries@[i].0@ == k);
        let j = info.position(k);
        assert(info.entries@[j].0@ == k);
    }
}

/// A failure shows which error or which fault it is.
pub proof fn law_failures_are_shown(failure: Failure)
    ensures
        match failure {
            Failure::Fatal(fault) => failure@ == FailureView::Fatal(fault),
            Failure::Rejected(error) => failure@ == FailureView::Rejected(
                match error {
                    ParseError::PacketTooShort => ErrorKind::PacketTooShort,
                    ParseError::HeaderSizeNotPresent => ErrorKind::HeaderSizeNotPresent,
                    ParseError::MessageSizeMismatch => ErrorKind::MessageSizeMismatch,
                    ParseError::ErrorWhileParsingField(_) => ErrorKind::ErrorWhileParsingField,
                    ParseError::ErrorWhileParsingMessage(_) => ErrorKind::ErrorWhileParsingMessage,
                    ParseError::UnsupportedMessageType => ErrorKind::UnsupportedMessageType,
                },
            ),
        },
{
}

} // verus!
