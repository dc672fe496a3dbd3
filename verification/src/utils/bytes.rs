//! Byte-level reading and writing: big-endian integers and a forward-only cursor.
use byteorder::{BigEndian, ReadBytesExt};
use std::io::Read;
use vstd::prelude::*;
use vstd::slice::slice_subrange;

verus! {

/// The error that a read past the end of the input reports.
#[verifier::external_type_specification]
#[verifier::external_body]
pub struct ExIoError(std::io::Error);

/// The number that the first two bytes of `s` spell, most significant byte first.
pub open spec fn be16(s: Seq<u8>) -> u16 {
    (s[0] * 0x100 + s[1]) as u16
}

/// The number that the first four bytes of `s` spell, most significant byte first.
pub open spec fn be32(s: Seq<u8>) -> u32 {
    (s[0] * 0x100_0000 + s[1] * 0x1_0000 + s[2] * 0x100 + s[3]) as u32
}

/// The number that the first six bytes of `s` spell, most significant byte first.
pub open spec fn be48(s: Seq<u8>) -> u64 {
    (s[0] * 0x100_0000_0000 + s[1] * 0x1_0000_0000 + s[2] * 0x100_0000 + s[3] * 0x1_0000 + s[4]
        * 0x100 + s[5]) as u64
}

/// The two bytes of `v`, most significant byte first.
pub open spec fn be16_bytes(v: u16) -> Seq<u8> {
    seq![(v / 0x100) as u8, (v % 0x100) as u8]
}

/// The four bytes of `v`, most significant byte first.
pub open spec fn be32_bytes(v: u32) -> Seq<u8> {
    seq![
        (v / 0x100_0000) as u8,
        (v / 0x1_0000 % 0x100) as u8,
        (v / 0x100 % 0x100) as u8,
        (v % 0x100) as u8,
    ]
}

/// The six low bytes of `v`, most significant byte first.
pub open spec fn be48_bytes(v: u64) -> Seq<u8> {
    seq![
        (v / 0x100_0000_0000 % 0x100) as u8,
        (v / 0x1_0000_0000 % 0x100) as u8,
        (v / 0x100_0000 % 0x100) as u8,
        (v / 0x1_0000 % 0x100) as u8,
        (v / 0x100 % 0x100) as u8,
        (v % 0x100) as u8,
    ]
}

/// `ReadBytesExt::read_u8` on a cursor over `input`: the first byte, or an
/// error exactly when there is none.
#[verifier::external_body]
fn outside_read_u8(input: &[u8]) -> (r: Result<u8, std::io::Error>)
    ensures
        match r {
            Ok(v) => input@.len() >= 1 && v == input@[0],
            Err(_) => input@.len() < 1,
        },
{
    std::io::Cursor::new(input).read_u8()
}

/// `ReadBytesExt::read_u16::<BigEndian>` on a cursor over `input`: the first
/// two bytes as a big-endian number, or an error exactly when there are fewer.
#[verifier::external_body]
fn outside_read_u16(input: &[u8]) -> (r: Result<u16, std::io::Error>)
    ensures
        match r {
            Ok(v) => input@.len() >= 2 && v == be16(input@),
            Err(_) => input@.len() < 2,
        },
{
    std::io::Cursor::new(input).read_u16::<BigEndian>()
}

/// `ReadBytesExt::read_u32::<BigEndian>` on a cursor over `input`: the first
/// four bytes as a big-endian number, or an error exactly when there are fewer.
#[verifier::external_body]
fn outside_read_u32(input: &[u8]) -> (r: Result<u32, std::io::Error>)
    ensures
        match r {
            Ok(v) => input@.len() >= 4 && v == be32(input@),
            Err(_) => input@.len() < 4,
        },
{
    std::io::Cursor::new(input).read_u32::<BigEndian>()
}

/// `Read::read_exact` on a cursor over `input`: fills `buf` with the first
/// bytes of `input`, or reports an error exactly when `input` is shorter than
/// `buf`; what `buf` then holds is left open, its length stays.
#[verifier::external_body]
fn outside_read_exact(input: &[u8], buf: &mut Vec<u8>) -> (r: Result<(), std::io::Error>)
    ensures
        final(buf)@.len() == old(buf)@.len(),
        match r {
            Ok(_) => input@.len() >= old(buf)@.len() && final(buf)@ == input@.take(
                old(buf)@.len() as int,
            ),
            Err(_) => input@.len() < old(buf)@.len(),
        },
{
    std::io::Cursor::new(input).read_exact(buf)
}

/// A forward-only reader over a byte slice; its view is what is still unread.
pub struct Cursor<'a> {
    pub rest: &'a [u8],
}

impl<'a> View for Cursor<'a> {
    type V = Seq<u8>;

    open spec fn view(&self) -> Seq<u8> {
        self.rest@
    }
}

impl<'a> Cursor<'a> {
    pub fn new(data: &'a [u8]) -> (r: Cursor<'a>)
        ensures
            r@ == data@,
    {
        Cursor { rest: data }
    }

    /// Moves past the next `n` bytes.
    fn advance(&mut self, n: usize)
        requires
            n <= old(self)@.len(),
        ensures
            final(self)@ == old(self)@.skip(n as int),
    {
        self.rest = slice_subrange(self.rest, n, self.rest.len());
    }

    /// Reads one byte.
    pub fn read_u8(&mut self) -> (r: Result<u8, std::io::Error>)
        ensures
            match r {
                Ok(v) => old(self)@.len() >= 1 && v == old(self)@[0] && final(self)@ == old(
                    self,
                )@.skip(1),
                Err(_) => old(self)@.len() < 1 && final(self)@ == old(self)@,
            },
    {
        let r = outside_read_u8(self.rest);
        if r.is_ok() {
            self.advance(1);
        }
        r
    }

    /// Reads two bytes as a big-endian number.
    pub fn read_u16(&mut self) -> (r: Result<u16, std::io::Error>)
        ensures
            match r {
                Ok(v) => old(self)@.len() >= 2 && v == be16(old(self)@) && final(self)@ == old(
                    self,
                )@.skip(2),
                Err(_) => old(self)@.len() < 2 && final(self)@ == old(self)@,
            },
    {
        let r = outside_read_u16(self.rest);
        if r.is_ok() {
            self.advance(2);
        }
        r
    }

    /// Reads four bytes as a big-endian number.
    pub fn read_u32(&mut self) -> (r: Result<u32, std::io::Error>)
        ensures
            match r {
                Ok(v) => old(self)@.len() >= 4 && v == be32(old(self)@) && final(self)@ == old(
                    self,
                )@.skip(4),
                Err(_) => old(self)@.len() < 4 && final(self)@ == old(self)@,
            },
    {
        let r = outside_read_u32(self.rest);
        if r.is_ok() {
            self.advance(4);
        }
        r
    }

    /// Reads the next `n` bytes.
    pub fn read_bytes(&mut self, n: usize) -> (r: Result<Vec<u8>, std::io::Error>)
        ensures
            match r {
                Ok(v) => old(self)@.len() >= n && v@ == old(self)@.take(n as int) && final(self)@
                    == old(self)@.skip(n as int),
                Err(_) => old(self)@.len() < n && final(self)@ == old(self)@,
            },
    {
        let mut buf: Vec<u8> = vec![0u8; n];
        match outside_read_exact(self.rest, &mut buf) {
            Ok(()) => {
                self.advance(n);
                Ok(buf)
            },
            Err(e) => Err(e),
        }
    }
}

/// Reads six bytes as a big-endian number.
pub fn read_u48(s: &[u8]) -> (r: u64)
    requires
        s@.len() >= 6,
    ensures
        r == be48(s@),
{
    s[0] as u64 * 0x100_0000_0000 + s[1] as u64 * 0x1_0000_0000 + s[2] as u64 * 0x100_0000
        + s[3] as u64 * 0x1_0000 + s[4] as u64 * 0x100 + s[5] as u64
}

/// Appends the two bytes of `v`, most significant byte first.
pub fn push_u16(out: &mut Vec<u8>, v: u16)
    ensures
        final(out)@ == old(out)@ + be16_bytes(v),
{
    out.push((v / 0x100) as u8);
    out.push((v % 0x100) as u8);
    assert(out@ == old(out)@ + be16_bytes(v));
}

/// Appends the four bytes of `v`, most significant byte first.
pub fn push_u32(out: &mut Vec<u8>, v: u32)
    ensures
        final(out)@ == old(out)@ + be32_bytes(v),
{
    out.push((v / 0x100_0000) as u8);
    out.push((v / 0x1_0000 % 0x100) as u8);
    out.push((v / 0x100 % 0x100) as u8);
    out.push((v % 0x100) as u8);
    assert(out@ == old(out)@ + be32_bytes(v));
}

/// Appends the six low bytes of `v`, most significant byte first.
pub fn push_u48(out: &mut Vec<u8>, v: u64)
    ensures
        final(out)@ == old(out)@ + be48_bytes(v),
{
    out.push((v / 0x100_0000_0000 % 0x100) as u8);
    out.push((v / 0x1_0000_0000 % 0x100) as u8);
    out.push((v / 0x100_0000 % 0x100) as u8);
    out.push((v / 0x1_0000 % 0x100) as u8);
    out.push((v / 0x100 % 0x100) as u8);
    out.push((v % 0x100) as u8);
    assert(out@ == old(out)@ + be48_bytes(v));
}

/// Reading back two written bytes gives the number that was written.
pub proof fn lemma_be16_round_trip(v: u16, tail: Seq<u8>)
    ensures
        be16(be16_bytes(v) + tail) == v,
{
}

/// Reading back four written bytes gives the number that was written.
pub proof fn lemma_be32_round_trip(v: u32, tail: Seq<u8>)
    ensures
        be32(be32_bytes(v) + tail) == v,
{
}

/// Reading back six written bytes gives the number that was written, if it
/// fits in six bytes.
pub proof fn lemma_be48_round_trip(v: u64, tail: Seq<u8>)
    requires
        v < 0x1_0000_0000_0000,
    ensures
        be48(be48_bytes(v) + tail) == v,
{
    let w: int = v as int;
    let q1: int = w / 0x100;
    let q2: int = w / 0x1_0000;
    let q3: int = w / 0x100_0000;
    let q4: int = w / 0x1_0000_0000;
    let q5: int = w / 0x100_0000_0000;
    assert(w == 0x100 * q1 + w % 0x100);
    assert(q2 == q1 / 0x100);
    assert(q3 == q2 / 0x100);
    assert(q4 == q3 / 0x100);
    assert(q5 == q4 / 0x100);
    assert(q5 / 0x100 == 0);
    let s = be48_bytes(v) + tail;
    assert(s[0] == q5 % 0x100 && s[1] == q4 % 0x100 && s[2] == q3 % 0x100);
    assert(s[3] == q2 % 0x100 && s[4] == q1 % 0x100 && s[5] == w % 0x100);
    assert(q4 == 0x100 * s[0] + s[1]);
    assert(q3 == 0x100 * q4 + s[2]);
    assert(q2 == 0x100 * q3 + s[3]);
    assert(q1 == 0x100 * q2 + s[4]);
}

/// Writing a number that was read gives back the bytes it was read from.
pub proof fn lemma_be16_bytes_round_trip(s: Seq<u8>)
    requires
        s.len() >= 2,
    ensures
        be16_bytes(be16(s)) == s.take(2),
{
}

/// Writing a number that was read gives back the bytes it was read from.
pub proof fn lemma_be32_bytes_round_trip(s: Seq<u8>)
    requires
        s.len() >= 4,
    ensures
        be32_bytes(be32(s)) == s.take(4),
{
    let v: int = s[0] * 0x100_0000 + s[1] * 0x1_0000 + s[2] * 0x100 + s[3];
    assert(be32(s) == v);
    assert(v / 0x100 == s[0] * 0x1_0000 + s[1] * 0x100 + s[2]);
    assert(v / 0x1_0000 == s[0] * 0x100 + s[1]);
    assert(v / 0x100_0000 == s[0]);
    assert(be32_bytes(be32(s)) =~= s.take(4));
}

/// Writing a number that was read gives back the bytes it was read from.
pub proof fn lemma_be48_bytes_round_trip(s: Seq<u8>)
    requires
        s.len() >= 6,
    ensures
        be48_bytes(be48(s)) == s.take(6),
        be48(s) < 0x1_0000_0000_0000,
{
    let v: int = s[0] * 0x100_0000_0000 + s[1] * 0x1_0000_0000 + s[2] * 0x100_0000 + s[3]
        * 0x1_0000 + s[4] * 0x100 + s[5];
    assert(be48(s) == v);
    assert(v / 0x100 == s[0] * 0x1_0000_0000 + s[1] * 0x100_0000 + s[2] * 0x1_0000 + s[3] * 0x100
        + s[4]);
    assert(v / 0x1_0000 == s[0] * 0x100_0000 + s[1] * 0x1_0000 + s[2] * 0x100 + s[3]);
    assert(v / 0x100_0000 == s[0] * 0x1_0000 + s[1] * 0x100 + s[2]);
    assert(v / 0x1_0000_0000 == s[0] * 0x100 + s[1]);
    assert(v / 0x100_0000_0000 == s[0]);
    assert(be48_bytes(be48(s)) =~= s.take(6));
}

} // verus!
