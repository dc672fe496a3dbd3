//! Laws of the wire format: reading and writing undo each other.
use vstd::prelude::*;
use vstd::utf8::{
    decode_utf8_encode_utf8, encode_utf8, encode_utf8_decode_utf8, encode_utf8_valid_utf8,
};

use crate::utils::bytes::{
    be16, be16_bytes, be32, be32_bytes, be48, be48_bytes, lemma_be16_bytes_round_trip,
    lemma_be16_round_trip, lemma_be32_bytes_round_trip, lemma_be32_round_trip,
    lemma_be48_bytes_round_trip, lemma_be48_round_trip,
};
use crate::utils::format::{
    field_code, field_type_of, key_of, last_field, message_bytes, message_header_bytes, message_size,
    new_message, new_operation, new_packet, operation_bytes, operation_consistent, operation_sized, operations_bytes,
    operations_size, packet_bytes, read_field, read_fields, read_message, read_operation,
    read_operations, read_packet, write_reply, BodyView, ErrorKind, FailureView, FieldView, MessageView,
    OperationView, PacketView, INFO_PACKET, MESSAGE_HEADER_LEN, MESSAGE_PACKET,
};
use crate::utils::info::{info_table, with_line, without_return};
use crate::utils::parser::AerospikeFieldType;
use crate::utils::text::find_byte;

verus! {

/// Concatenation is associative.
proof fn lemma_add_assoc(a: Seq<u8>, b: Seq<u8>, c: Seq<u8>)
    ensures
        (a + b) + c == a + (b + c),
{
    assert((a + b) + c =~= a + (b + c));
}

/// Whether every operation declares the sizes that it has.
pub open spec fn all_consistent(ops: Seq<OperationView>) -> bool {
    forall|i: int| 0 <= i < ops.len() ==> operation_consistent(#[trigger] ops[i])
}

/// Whether every operation declares the size that it has as a whole.
pub open spec fn all_sized(ops: Seq<OperationView>) -> bool {
    forall|i: int| 0 <= i < ops.len() ==> operation_sized(#[trigger] ops[i])
}

/// The bytes that a list of fields takes, each with its own four size bytes.
pub open spec fn fields_size(fields: Seq<FieldView>) -> nat
    decreases fields.len(),
{
    if fields.len() == 0 {
        0
    } else {
        fields_size(fields.drop_last()) + 4 + fields.last().size as nat
    }
}

/// One more operation at the end adds its own size.
proof fn lemma_operations_size_push(ops: Seq<OperationView>, o: OperationView)
    ensures
        operations_size(ops.push(o)) == operations_size(ops) + 4 + o.op_sz,
    decreases ops.len(),
{
    reveal_with_fuel(operations_size, 2);
    if ops.len() == 0 {
        assert(ops.push(o).drop_first() =~= Seq::<OperationView>::empty());
    } else {
        assert(ops.push(o).drop_first() =~= ops.drop_first().push(o));
        lemma_operations_size_push(ops.drop_first(), o);
    }
}

/// What reading one operation gives: it declares the sizes that it has, and
/// its bytes are those that were read.
pub proof fn law_read_operation(s: Seq<u8>)
    requires
        read_operation(s) is Ok,
    ensures
        ({
            let (o, rest) = read_operation(s)->Ok_0;
            &&& operation_consistent(o)
            &&& operation_bytes(o) + rest == s
            &&& s.len() == 4 + o.op_sz + rest.len()
        }),
{
    let (o, rest) = read_operation(s)->Ok_0;
    let name = s.subrange(8, 8 + s[7]);
    decode_utf8_encode_utf8(name);
    lemma_be32_bytes_round_trip(s);
    assert(operation_bytes(o) + rest =~= s);
}

/// What a written operation reads back as, whatever follows it: itself.
pub proof fn law_operation_round_trip(o: OperationView, tail: Seq<u8>)
    requires
        operation_consistent(o),
    ensures
        read_operation(operation_bytes(o) + tail) == Ok::<
            (OperationView, Seq<u8>),
            FailureView,
        >((o, tail)),
{
    let s = operation_bytes(o) + tail;
    let name = encode_utf8(o.bin_name);
    let head = be32_bytes(o.op_sz);
    lemma_be32_round_trip(o.op_sz, s.skip(4));
    assert(head + s.skip(4) =~= s);
    encode_utf8_valid_utf8(o.bin_name);
    encode_utf8_decode_utf8(o.bin_name);
    assert(s[4] == o.op && s[5] == o.particle_type && s[6] == o.bin_version && s[7]
        == o.bin_name_length);
    assert(s.subrange(8, 8 + s[7]) =~= name);
    assert(s.subrange(8 + s[7], 4 + o.op_sz) =~= o.data);
    assert(s.skip(4 + o.op_sz) =~= tail);
}

/// What reading `n` operations gives.
pub proof fn lemma_read_operations(done: Seq<OperationView>, n: nat, s: Seq<u8>)
    requires
        read_operations(done, n, s) is Ok,
    ensures
        ({
            let (ops, rest) = read_operations(done, n, s)->Ok_0;
            &&& ops.len() == done.len() + n
            &&& operations_size(ops) + rest.len() == operations_size(done) + s.len()
            &&& all_consistent(done) ==> all_consistent(ops)
            &&& ops.take(done.len() as int) == done
            &&& operations_bytes(ops.skip(done.len() as int)) + rest == s
        }),
    decreases n,
{
    let (ops, rest) = read_operations(done, n, s)->Ok_0;
    let d: int = done.len() as int;
    if n == 0 {
        assert(ops.take(d) =~= done);
        assert(ops.skip(d) =~= Seq::<OperationView>::empty());
        assert(operations_bytes(ops.skip(d)) + rest =~= s);
    } else {
        law_read_operation(s);
        let (o, next) = read_operation(s)->Ok_0;
        lemma_read_operations(done.push(o), (n - 1) as nat, next);
        lemma_operations_size_push(done, o);
        assert(ops.take(d + 1)[d] == o);
        assert(ops.take(d) =~= ops.take(d + 1).take(d));
        assert(done.push(o).take(d) =~= done);
        assert(ops.skip(d).drop_first() =~= ops.skip(d + 1));
        assert(ops.skip(d)[0] == o);
        assert(operations_bytes(ops.skip(d)) + rest =~= operation_bytes(o) + (operations_bytes(
            ops.skip(d + 1),
        ) + rest));
    }
}

/// What a written list of operations reads back as, whatever follows it.
proof fn lemma_operations_round_trip(
    done: Seq<OperationView>,
    ops: Seq<OperationView>,
    tail: Seq<u8>,
)
    requires
        all_consistent(ops),
    ensures
        read_operations(done, ops.len(), operations_bytes(ops) + tail) == Ok::<
            (Seq<OperationView>, Seq<u8>),
            FailureView,
        >((done + ops, tail)),
    decreases ops.len(),
{
    if ops.len() == 0 {
        assert(operations_bytes(ops) + tail =~= tail);
        assert(done + ops =~= done);
    } else {
        let rest = ops.drop_first();
        let after = operations_bytes(rest) + tail;
        let n = ops.len();
        let s = operations_bytes(ops) + tail;
        lemma_add_assoc(operation_bytes(ops[0]), operations_bytes(rest), tail);
        assert(s == operation_bytes(ops[0]) + after);
        assert(read_operations(done, n, s) == read_operations(
            done.push(ops[0]),
            (n - 1) as nat,
            after,
        )) by {
            law_operation_round_trip(ops[0], after);
        }
        assert(all_consistent(rest)) by {
            assert forall|i: int| 0 <= i < rest.len() implies operation_consistent(
                #[trigger] rest[i],
            ) by {
                assert(rest[i] == ops[i + 1]);
            }
        }
        lemma_operations_round_trip(done.push(ops[0]), rest, tail);
        assert(done.push(ops[0]) + rest =~= done + ops);
    }
}

/// What reading `n` fields gives: so many more fields, and their sizes tell
/// how much was read.
proof fn lemma_read_fields(done: Seq<FieldView>, n: nat, s: Seq<u8>)
    requires
        read_fields(done, n, s) is Ok,
    ensures
        ({
            let (fields, rest) = read_fields(done, n, s)->Ok_0;
            &&& fields.len() == done.len() + n
            &&& fields_size(fields) + rest.len() == fields_size(done) + s.len()
            &&& (forall|i: int|
                0 <= i < done.len() ==> (#[trigger] done[i]).size == done[i].data.len() + 1) ==> (
            forall|i: int|
                0 <= i < fields.len() ==> (#[trigger] fields[i]).size == fields[i].data.len() + 1)
        }),
    decreases n,
{
    if n > 0 {
        let (f, next) = read_field(s)->Ok_0;
        lemma_read_fields(done.push(f), (n - 1) as nat, next);
        assert(done.push(f).drop_last() =~= done);
        if forall|i: int| 0 <= i < done.len() ==> (#[trigger] done[i]).size == done[i].data.len() + 1
        {
            assert forall|i: int| 0 <= i < done.push(f).len() implies (#[trigger] done.push(
                f,
            )[i]).size == done.push(f)[i].data.len() + 1 by {
                if i < done.len() {
                    assert(done.push(f)[i] == done[i]);
                }
            }
        }
    }
}

/// Every byte of a message is accounted for: the header, the fields and the
/// operations as they declare their sizes are the whole message, and they
/// are as many as the header says and declare the sizes that they have.
pub proof fn law_message_accounts_for_every_byte(s: Seq<u8>)
    requires
        read_message(s) is Ok,
    ensures
        ({
            let m = read_message(s)->Ok_0;
            &&& s.len() == MESSAGE_HEADER_LEN + fields_size(m.fields) + operations_size(
                m.operations,
            )
            &&& m.fields.len() == m.n_fields
            &&& m.operations.len() == m.n_ops
            &&& forall|i: int|
                0 <= i < m.fields.len() ==> (#[trigger] m.fields[i]).size == m.fields[i].data.len()
                    + 1
            &&& all_consistent(m.operations)
        }),
{
    let n_fields = be16(s.skip(18)) as nat;
    let n_ops = be16(s.skip(20)) as nat;
    lemma_read_fields(Seq::empty(), n_fields, s.skip(22));
    let (fields, rest) = read_fields(Seq::empty(), n_fields, s.skip(22))->Ok_0;
    lemma_read_operations(Seq::empty(), n_ops, rest);
}

/// Fields read the same from a prefix that reaches behind them; from a shorter
/// one they cannot be read.
proof fn lemma_fields_of_prefix(done: Seq<FieldView>, n: nat, s: Seq<u8>, k: int)
    requires
        read_fields(done, n, s) is Ok,
        0 <= k <= s.len(),
    ensures
        ({
            let (fields, rest) = read_fields(done, n, s)->Ok_0;
            let used = s.len() - rest.len();
            &&& 0 <= used
            &&& read_fields(done, n, s.take(k)) == if used <= k {
                Ok::<(Seq<FieldView>, Seq<u8>), FailureView>((fields, rest.take(k - used)))
            } else {
                Err(FailureView::Rejected(ErrorKind::ErrorWhileParsingField))
            }
        }),
    decreases n,
{
    if n > 0 {
        let (f, next) = read_field(s)->Ok_0;
        let p = s.take(k);
        let step = 4 + f.size;
        lemma_read_fields(done.push(f), (n - 1) as nat, next);
        lemma_fields_of_prefix(done.push(f), (n - 1) as nat, next, if step <= k {
            k - step
        } else {
            0
        });
        if step <= k {
            assert(p.subrange(5, step as int) =~= f.data);
            assert(p.skip(step as int) =~= next.take(k - step));
            assert(read_field(p) == Ok::<(FieldView, Seq<u8>), FailureView>((f, p.skip(step as int))));
        }
    }
}

/// Operations read the same from a prefix that reaches behind them; from a
/// shorter one they cannot be read.
proof fn lemma_operations_of_prefix(done: Seq<OperationView>, n: nat, s: Seq<u8>, k: int)
    requires
        read_operations(done, n, s) is Ok,
        0 <= k <= s.len(),
    ensures
        ({
            let (ops, rest) = read_operations(done, n, s)->Ok_0;
            let used = s.len() - rest.len();
            &&& 0 <= used
            &&& read_operations(done, n, s.take(k)) == if used <= k {
                Ok::<(Seq<OperationView>, Seq<u8>), FailureView>((ops, rest.take(k - used)))
            } else {
                Err(FailureView::Rejected(ErrorKind::ErrorWhileParsingField))
            }
        }),
    decreases n,
{
    if n > 0 {
        let (o, next) = read_operation(s)->Ok_0;
        let p = s.take(k);
        let step = 4 + o.op_sz;
        lemma_operations_of_prefix(done.push(o), (n - 1) as nat, next, if step <= k {
            k - step
        } else {
            0
        });
        if k >= 8 + s[7] && k >= 8 {
            assert(p.subrange(8, 8 + p[7]) =~= s.subrange(8, 8 + s[7]));
        }
        if step <= k {
            assert(p.subrange(8 + p[7], step as int) =~= o.data);
            assert(p.skip(step as int) =~= next.take(k - step));
            assert(read_operation(p) == Ok::<(OperationView, Seq<u8>), FailureView>(
                (o, p.skip(step as int)),
            ));
        }
    }
}

/// A message that breaks off is not read: no byte gives one error, fewer
/// bytes than the header size says another, and all else a third.
pub proof fn law_message_prefix(s: Seq<u8>, k: int)
    requires
        read_message(s) is Ok,
        0 <= k < s.len(),
    ensures
        read_message(s.take(k)) == Err::<MessageView, FailureView>(
            FailureView::Rejected(
                if k == 0 {
                    ErrorKind::HeaderSizeNotPresent
                } else if k < s[0] {
                    ErrorKind::MessageSizeMismatch
                } else {
                    ErrorKind::ErrorWhileParsingField
                },
            ),
        ),
{
    if k >= MESSAGE_HEADER_LEN && k >= s[0] {
        let p = s.take(k);
        let n_fields = be16(s.skip(18)) as nat;
        let n_ops = be16(s.skip(20)) as nat;
        let body = s.skip(22);
        let (fields, rest) = read_fields(Seq::empty(), n_fields, body)->Ok_0;
        assert(p.skip(22) =~= body.take(k - 22));
        lemma_fields_of_prefix(Seq::empty(), n_fields, body, k - 22);
        let used = body.len() - rest.len();
        if used <= k - 22 {
            lemma_operations_of_prefix(Seq::empty(), n_ops, rest, k - 22 - used);
        }
    }
}

/// A message without fields that was read is written as the bytes it was
/// read from.
pub proof fn law_message_rewrite(s: Seq<u8>)
    requires
        read_message(s) is Ok,
        read_message(s)->Ok_0.fields.len() == 0,
    ensures
        message_bytes(read_message(s)->Ok_0) == s,
{
    let m = read_message(s)->Ok_0;
    law_message_accounts_for_every_byte(s);
    lemma_read_operations(Seq::empty(), m.n_ops as nat, s.skip(22));
    assert(m.operations.skip(0) =~= m.operations);
    lemma_be32_bytes_round_trip(s.skip(6));
    lemma_be32_bytes_round_trip(s.skip(10));
    lemma_be32_bytes_round_trip(s.skip(14));
    lemma_be16_bytes_round_trip(s.skip(18));
    lemma_be16_bytes_round_trip(s.skip(20));
    assert(message_header_bytes(m) =~= s.take(22));
    assert(operations_bytes(m.operations) =~= s.skip(22));
    assert(message_bytes(m) =~= s);
}

/// Whether a message without fields says of itself what it holds.
pub open spec fn message_consistent(m: MessageView) -> bool {
    &&& m.fields.len() == 0
    &&& m.n_fields == 0
    &&& m.n_ops == m.operations.len()
    &&& all_consistent(m.operations)
    &&& m.header_sz <= message_size(m)
}

/// The declared size of a message is the number of bytes it is written as, if
/// its operations declare the sizes that they have as a whole.
pub proof fn law_message_size(m: MessageView)
    requires
        all_sized(m.operations),
    ensures
        message_bytes(m).len() == message_size(m),
{
    lemma_operations_size(m.operations);
}

/// The declared sizes of operations are the numbers of bytes they are written
/// as.
proof fn lemma_operations_size(ops: Seq<OperationView>)
    requires
        all_sized(ops),
    ensures
        operations_bytes(ops).len() == operations_size(ops),
    decreases ops.len(),
{
    if ops.len() > 0 {
        let rest = ops.drop_first();
        assert forall|i: int| 0 <= i < rest.len() implies operation_sized(#[trigger] rest[i]) by {
            assert(rest[i] == ops[i + 1]);
        }
        lemma_operations_size(rest);
        assert(operation_sized(ops[0]));
    }
}

/// The header of a message reads back as it was written, whatever follows it.
pub proof fn lemma_header_round_trip(m: MessageView, tail: Seq<u8>)
    ensures
        ({
            let s = message_header_bytes(m) + tail;
            &&& s.len() == 22 + tail.len()
            &&& s[0] == m.header_sz && s[1] == m.info1 && s[2] == m.info2
            &&& s[3] == m.info3 && s[4] == m.info4 && s[5] == m.result_code
            &&& be32(s.skip(6)) == m.generation
            &&& be32(s.skip(10)) == m.record_ttl
            &&& be32(s.skip(14)) == m.transaction_ttl
            &&& be16(s.skip(18)) == m.n_fields
            &&& be16(s.skip(20)) == m.n_ops
            &&& s.skip(22) == tail
        }),
{
    let s = message_header_bytes(m) + tail;
    assert(be32(s.skip(6)) == m.generation) by {
        lemma_be32_round_trip(m.generation, s.skip(10));
        assert(s.skip(6) =~= be32_bytes(m.generation) + s.skip(10));
    }
    assert(be32(s.skip(10)) == m.record_ttl) by {
        lemma_be32_round_trip(m.record_ttl, s.skip(14));
        assert(s.skip(10) =~= be32_bytes(m.record_ttl) + s.skip(14));
    }
    assert(be32(s.skip(14)) == m.transaction_ttl) by {
        lemma_be32_round_trip(m.transaction_ttl, s.skip(18));
        assert(s.skip(14) =~= be32_bytes(m.transaction_ttl) + s.skip(18));
    }
    assert(be16(s.skip(18)) == m.n_fields) by {
        lemma_be16_round_trip(m.n_fields, s.skip(20));
        assert(s.skip(18) =~= be16_bytes(m.n_fields) + s.skip(20));
    }
    assert(be16(s.skip(20)) == m.n_ops) by {
        lemma_be16_round_trip(m.n_ops, tail);
        assert(s.skip(20) =~= be16_bytes(m.n_ops) + tail);
    }
    assert(s.skip(22) =~= tail);
}

/// A message without fields that is written reads back as itself.
pub proof fn law_message_round_trip(m: MessageView)
    requires
        message_consistent(m),
    ensures
        read_message(message_bytes(m)) == Ok::<MessageView, FailureView>(m),
{
    let ops = operations_bytes(m.operations);
    law_message_size(m);
    lemma_header_round_trip(m, ops);
    assert(ops + Seq::<u8>::empty() =~= ops);
    lemma_operations_round_trip(Seq::empty(), m.operations, Seq::empty());
    assert(Seq::<OperationView>::empty() + m.operations =~= m.operations);
    assert(m.fields =~= Seq::<FieldView>::empty());
}

/// The header of a packet reads back as it was written, whatever follows it.
proof fn lemma_packet_header_round_trip(p: PacketView, tail: Seq<u8>)
    requires
        p.size < 0x1_0000_0000_0000,
    ensures
        ({
            let s = seq![p.version, p.message_type] + be48_bytes(p.size) + tail;
            &&& s.len() == 8 + tail.len()
            &&& s[0] == p.version
            &&& s[1] == p.message_type
            &&& be48(s.skip(2)) == p.size
            &&& s.skip(8) == tail
        }),
{
    let s = seq![p.version, p.message_type] + be48_bytes(p.size) + tail;
    lemma_be48_round_trip(p.size, tail);
    assert(s.skip(2) =~= be48_bytes(p.size) + tail);
    assert(s.skip(8) =~= tail);
}

/// A packet around a message without fields that is written reads back as
/// itself.
pub proof fn law_packet_round_trip(p: PacketView)
    requires
        p.message_type == MESSAGE_PACKET,
        p.size < 0x1_0000_0000_0000,
        p.body matches BodyView::Message(m) && message_consistent(m),
    ensures
        read_packet(packet_bytes(p)) == Ok::<PacketView, FailureView>(p),
{
    let m = p.body->Message_0;
    law_message_round_trip(m);
    lemma_packet_header_round_trip(p, message_bytes(m));
}

/// A packet around a message without fields that was read is written as the
/// bytes it was read from.
pub proof fn law_packet_rewrite(s: Seq<u8>)
    requires
        read_packet(s) is Ok,
        read_packet(s)->Ok_0.body matches BodyView::Message(m) && m.fields.len() == 0,
    ensures
        packet_bytes(read_packet(s)->Ok_0) == s,
{
    let p = read_packet(s)->Ok_0;
    law_message_rewrite(s.skip(8));
    lemma_be48_bytes_round_trip(s.skip(2));
    assert(packet_bytes(p) =~= s);
}

/// The acknowledgement of a write is a packet around an empty message with
/// the times to live of the write, and reads back as that packet.
pub proof fn law_write_reply(record_ttl: u32, transaction_ttl: u32)
    ensures
        ({
            let m = new_message(
                (0, 0, 0, 0),
                0,
                0,
                record_ttl,
                transaction_ttl,
                Seq::empty(),
                Seq::empty(),
            );
            &&& write_reply(record_ttl, transaction_ttl) == packet_bytes(new_packet(m))
            &&& read_packet(write_reply(record_ttl, transaction_ttl)) == Ok::<
                PacketView,
                FailureView,
            >(new_packet(m))
        }),
{
    let m = new_message(
        (0, 0, 0, 0),
        0,
        0,
        record_ttl,
        transaction_ttl,
        Seq::empty(),
        Seq::empty(),
    );
    assert(operations_size(m.operations) == 0);
    assert(write_reply(record_ttl, transaction_ttl) =~= packet_bytes(new_packet(m)));
    law_packet_round_trip(new_packet(m));
}

/// A message that is built from operations alone says of itself what it
/// holds, if the operations declare the sizes that they have and can be
/// counted.
pub proof fn law_new_message(
    info: (u8, u8, u8, u8),
    result_code: u8,
    generation: u32,
    record_ttl: u32,
    transaction_ttl: u32,
    operations: Seq<OperationView>,
)
    requires
        all_consistent(operations),
        operations.len() < 0x1_0000,
    ensures
        message_consistent(
            new_message(
                info,
                result_code,
                generation,
                record_ttl,
                transaction_ttl,
                Seq::empty(),
                operations,
            ),
        ),
{
}

/// A packet that is built around a message states the length of its body, if
/// the operations of the message declare the sizes that they have as a whole
/// and the size fits in six bytes.
pub proof fn law_new_packet_size(m: MessageView)
    requires
        all_sized(m.operations),
        message_size(m) < 0x1_0000_0000_0000,
    ensures
        be48(packet_bytes(new_packet(m)).skip(2)) == packet_bytes(new_packet(m)).len() - 8,
{
    law_message_size(m);
    lemma_packet_header_round_trip(new_packet(m), message_bytes(m));
}

/// A packet that is built around a message reads back as itself, if the
/// message says of itself what it holds and its size fits in six bytes.
pub proof fn law_new_packet(m: MessageView)
    requires
        message_consistent(m),
        message_size(m) < 0x1_0000_0000_0000,
    ensures
        read_packet(packet_bytes(new_packet(m))) == Ok::<PacketView, FailureView>(new_packet(m)),
{
    law_packet_round_trip(new_packet(m));
}

/// Only info packets and messages are read.
pub proof fn law_packet_types(s: Seq<u8>)
    requires
        read_packet(s) is Ok,
    ensures
        read_packet(s)->Ok_0.body is Info ==> s[1] == INFO_PACKET,
        read_packet(s)->Ok_0.body is Message ==> s[1] == MESSAGE_PACKET,
{
}

/// The data of the last field of type `t`.
pub open spec fn field_data(fields: Seq<FieldView>, t: AerospikeFieldType) -> Seq<u8> {
    last_field(fields, t)->0.data
}

/// Namespace, set and digest tell a key: two messages name the same key
/// exactly if they agree in all three.
pub proof fn law_key_identity(a: Seq<FieldView>, b: Seq<FieldView>)
    requires
        key_of(a) is Some,
        key_of(b) is Some,
    ensures
        key_of(a) == key_of(b) <==> {
            &&& field_data(a, AerospikeFieldType::Namespace) == field_data(
                b,
                AerospikeFieldType::Namespace,
            )
            &&& field_data(a, AerospikeFieldType::SetName) == field_data(
                b,
                AerospikeFieldType::SetName,
            )
            &&& field_data(a, AerospikeFieldType::DigestRipe) == field_data(
                b,
                AerospikeFieldType::DigestRipe,
            )
        },
{
    decode_utf8_encode_utf8(field_data(a, AerospikeFieldType::Namespace));
    decode_utf8_encode_utf8(field_data(b, AerospikeFieldType::Namespace));
    decode_utf8_encode_utf8(field_data(a, AerospikeFieldType::SetName));
    decode_utf8_encode_utf8(field_data(b, AerospikeFieldType::SetName));
}

/// The order of three fields of different types does not change the key that
/// they name.
pub proof fn law_key_field_order(a: Seq<FieldView>, b: Seq<FieldView>)
    requires
        a.len() == 3,
        b.len() == 3,
        a[0].field_type != a[1].field_type,
        a[0].field_type != a[2].field_type,
        a[1].field_type != a[2].field_type,
        b.contains(a[0]),
        b.contains(a[1]),
        b.contains(a[2]),
    ensures
        key_of(a) == key_of(b),
{
    assert forall|t: AerospikeFieldType| #[trigger] last_field(a, t) == last_field(b, t) by {
        lemma_last_of_three(a, t);
        lemma_last_of_three(b, t);
    }
}

/// The last field of a type among three.
proof fn lemma_last_of_three(fields: Seq<FieldView>, t: AerospikeFieldType)
    requires
        fields.len() == 3,
    ensures
        last_field(fields, t) == if fields[2].field_type == t {
            Some(fields[2])
        } else if fields[1].field_type == t {
            Some(fields[1])
        } else if fields[0].field_type == t {
            Some(fields[0])
        } else {
            None
        },
{
    reveal_with_fuel(last_field, 4);
}

/// A byte stands for a field type exactly if it is the byte of that type.
pub proof fn law_field_types(code: u8, t: AerospikeFieldType)
    ensures
        field_type_of(code) == Some(t) <==> code == field_code(t),
{
}

/// An operation that is made from a bin name and data declares the sizes that
/// they have, if these fit where they are declared.
pub proof fn law_new_operation(
    op: u8,
    particle_type: u8,
    bin_version: u8,
    bin_name: Seq<char>,
    data: Seq<u8>,
)
    requires
        encode_utf8(bin_name).len() < 0x100,
        4 + encode_utf8(bin_name).len() + data.len() < 0x1_0000_0000,
    ensures
        operation_consistent(new_operation(op, particle_type, bin_version, bin_name, data)),
{
}

/// An operation that is made from a bin name and data reads back as itself
/// after it was written, whatever follows it, if the sizes fit where they are
/// declared.
pub proof fn law_new_operation_round_trip(
    op: u8,
    particle_type: u8,
    bin_version: u8,
    bin_name: Seq<char>,
    data: Seq<u8>,
    tail: Seq<u8>,
)
    requires
        encode_utf8(bin_name).len() < 0x100,
        4 + encode_utf8(bin_name).len() + data.len() < 0x1_0000_0000,
    ensures
        ({
            let o = new_operation(op, particle_type, bin_version, bin_name, data);
            read_operation(operation_bytes(o) + tail) == Ok::<
                (OperationView, Seq<u8>),
                FailureView,
            >((o, tail))
        }),
{
    law_new_operation(op, particle_type, bin_version, bin_name, data);
    law_operation_round_trip(
        new_operation(op, particle_type, bin_version, bin_name, data),
        tail,
    );
}

/// A byte that is found in the first of two texts is found there in both.
proof fn lemma_find_byte_in_first(a: Seq<u8>, b: Seq<u8>, c: u8)
    requires
        find_byte(a, c) < a.len(),
    ensures
        find_byte(a + b, c) == find_byte(a, c),
    decreases a.len(),
{
    if a[0] != c {
        lemma_find_byte_in_first(a.drop_first(), b, c);
        assert((a + b).drop_first() =~= a.drop_first() + b);
    }
}

/// The last byte of a text is found in it, at the latest at its end.
proof fn lemma_find_last_byte(a: Seq<u8>)
    requires
        a.len() > 0,
    ensures
        find_byte(a, a.last()) < a.len(),
    decreases a.len(),
{
    if a[0] != a.last() {
        assert(a.drop_first().last() == a.last());
        lemma_find_last_byte(a.drop_first());
    }
}

/// Lines override what a table holds.
proof fn lemma_info_overrides(table: Map<Seq<char>, Option<Seq<char>>>, s: Seq<u8>)
    ensures
        info_table(table, s) == table.union_prefer_right(info_table(Map::empty(), s)),
    decreases s.len(),
{
    let end = find_byte(s, 0x0a) as int;
    if s.len() == 0 {
        assert(table.union_prefer_right(Map::empty()) =~= table);
    } else if end >= s.len() {
        assert(with_line(table, s) =~= table.union_prefer_right(with_line(Map::empty(), s)));
    } else {
        let line = without_return(s.take(end));
        let rest = s.skip(end + 1);
        lemma_info_overrides(with_line(table, line), rest);
        lemma_info_overrides(with_line(Map::empty(), line), rest);
        assert(info_table(table, s) =~= table.union_prefer_right(info_table(Map::empty(), s)));
    }
}

/// Lines that follow whole lines are read after them.
proof fn lemma_info_of_joined(
    table: Map<Seq<char>, Option<Seq<char>>>,
    first: Seq<u8>,
    second: Seq<u8>,
)
    requires
        first.len() == 0 || first.last() == 0x0a,
    ensures
        info_table(table, first + second) == info_table(info_table(table, first), second),
    decreases first.len(),
{
    if first.len() == 0 {
        assert(first + second =~= second);
    } else {
        lemma_find_last_byte(first);
        lemma_find_byte_in_first(first, second, 0x0a);
        let end = find_byte(first, 0x0a) as int;
        let s = first + second;
        assert(s.take(end) =~= first.take(end));
        assert(s.skip(end + 1) =~= first.skip(end + 1) + second);
        lemma_info_of_joined(
            with_line(table, without_return(first.take(end))),
            first.skip(end + 1),
            second,
        );
    }
}

/// Info text that follows a line end overrides what stands before it: the
/// table of both is the first table with the keys of the second set anew.
pub proof fn law_info_of_joined(first: Seq<u8>, second: Seq<u8>)
    requires
        first.len() == 0 || first.last() == 0x0a,
    ensures
        info_table(Map::empty(), first + second) == info_table(
            Map::empty(),
            first,
        ).union_prefer_right(info_table(Map::empty(), second)),
{
    lemma_info_of_joined(Map::empty(), first, second);
    lemma_info_overrides(info_table(Map::empty(), first), second);
}

} // verus!
