//! UTF-8 text in byte sequences: decoding it and cutting it at ASCII characters.
use std::string::FromUtf8Error;
use vstd::prelude::*;
use vstd::slice::{slice_subrange, slice_to_vec};
use vstd::utf8::{
    decode_utf8, is_char_boundary_iff_not_is_continuation_byte, pop_first_scalar, valid_utf8,
    valid_utf8_split,
};

verus! {

/// The error of a byte sequence that is not UTF-8.
#[verifier::external_type_specification]
#[verifier::external_body]
pub struct ExFromUtf8Error(FromUtf8Error);

/// `String::from_utf8`: the text that the bytes encode, or an error exactly
/// when they are not valid UTF-8.
pub assume_specification[ String::from_utf8 ](vec: Vec<u8>) -> (r: Result<String, FromUtf8Error>)
    ensures
        match r {
            Ok(s) => valid_utf8(vec@) && s@ == decode_utf8(vec@),
            Err(_) => !valid_utf8(vec@),
        },
;

/// The index of the first `b` in `s`, or the length of `s` if there is none.
pub open spec fn find_byte(s: Seq<u8>, b: u8) -> nat
    decreases s.len(),
{
    if s.len() == 0 {
        0
    } else if s[0] == b {
        0
    } else {
        1 + find_byte(s.drop_first(), b)
    }
}

/// The pieces of `s` between the occurrences of `b`; one piece if there is none.
pub open spec fn pieces(s: Seq<u8>, b: u8) -> Seq<Seq<u8>>
    decreases s.len(),
{
    let end = find_byte(s, b);
    if end >= s.len() {
        seq![s]
    } else {
        seq![s.take(end as int)] + pieces(s.skip(end as int + 1), b)
    }
}

/// The index of the first `b` in `s` from `from` on, or the length of `s`.
pub fn scan(s: &[u8], from: usize, b: u8) -> (r: usize)
    requires
        from <= s@.len(),
    ensures
        from <= r <= s@.len(),
        r == from + find_byte(s@.skip(from as int), b),
        r < s@.len() ==> s@[r as int] == b,
{
    let mut i: usize = from;
    while i < s.len() && s[i] != b
        invariant
            from <= i <= s@.len(),
            from + find_byte(s@.skip(from as int), b) == i + find_byte(s@.skip(i as int), b),
        decreases s@.len() - i,
    {
        assert(s@.skip(i as int).drop_first() =~= s@.skip(i as int + 1));
        i = i + 1;
    }
    i
}

/// The text that valid UTF-8 encodes.
pub fn text(bytes: &[u8]) -> (r: String)
    requires
        valid_utf8(bytes@),
    ensures
        r@ == decode_utf8(bytes@),
{
    match String::from_utf8(slice_to_vec(bytes)) {
        Ok(s) => s,
        Err(_) => vstd::pervasive::unreached(),
    }
}

/// What stands before and behind an ASCII character of valid UTF-8 is valid.
pub proof fn lemma_split_at_ascii(s: Seq<u8>, i: int)
    requires
        valid_utf8(s),
        0 <= i < s.len(),
        s[i] < 0x80,
    ensures
        valid_utf8(s.take(i)),
        valid_utf8(s.skip(i + 1)),
{
    let tail = s.subrange(i, s.len() as int);
    is_char_boundary_iff_not_is_continuation_byte(s, i);
    valid_utf8_split(s, i);
    assert(s.take(i) =~= s.subrange(0, i));
    assert(pop_first_scalar(tail) =~= s.skip(i + 1));
}

/// The pieces one after the other, with `b` between them.
pub open spec fn joined(parts: Seq<Seq<u8>>, b: u8) -> Seq<u8>
    decreases parts.len(),
{
    if parts.len() == 0 {
        Seq::empty()
    } else if parts.len() == 1 {
        parts[0]
    } else {
        parts[0] + seq![b] + joined(parts.drop_first(), b)
    }
}

/// A byte is found where it stands first.
proof fn lemma_find_byte(s: Seq<u8>, b: u8)
    ensures
        find_byte(s, b) <= s.len(),
        find_byte(s, b) < s.len() ==> s[find_byte(s, b) as int] == b,
        forall|i: int| 0 <= i < find_byte(s, b) ==> #[trigger] s[i] != b,
    decreases s.len(),
{
    if s.len() > 0 && s[0] != b {
        lemma_find_byte(s.drop_first(), b);
        assert forall|i: int| 0 <= i < find_byte(s, b) implies #[trigger] s[i] != b by {
            if i > 0 {
                assert(s[i] == s.drop_first()[i - 1]);
            }
        }
    }
}

/// Cutting and joining undo each other, and no piece holds the byte at which
/// it was cut.
pub proof fn law_pieces(s: Seq<u8>, b: u8)
    ensures
        pieces(s, b).len() > 0,
        joined(pieces(s, b), b) == s,
        forall|i: int|
            0 <= i < pieces(s, b).len() ==> !(#[trigger] pieces(s, b)[i]).contains(b),
    decreases s.len(),
{
    let end = find_byte(s, b) as int;
    let all = pieces(s, b);
    lemma_find_byte(s, b);
    if end < s.len() {
        let rest = s.skip(end + 1);
        law_pieces(rest, b);
        assert(all.drop_first() =~= pieces(rest, b));
        assert(joined(all, b) =~= s);
        assert forall|i: int| 0 <= i < all.len() implies !(#[trigger] all[i]).contains(b) by {
            if i > 0 {
                assert(all[i] == pieces(rest, b)[i - 1]);
            }
        }
    }
}

/// Cuts valid UTF-8 at each occurrence of the ASCII character `b`.
pub fn split(s: &[u8], b: u8) -> (r: Vec<String>)
    requires
        valid_utf8(s@),
        b < 0x80,
    ensures
        r@.len() == pieces(s@, b).len(),
        forall|i: int| 0 <= i < r@.len() ==> #[trigger] r@[i]@ == decode_utf8(pieces(s@, b)[i]),
{
    let ghost all = pieces(s@, b);
    let mut r: Vec<String> = Vec::new();
    let mut pos: usize = 0;
    assert(s@.skip(0) =~= s@);
    assert(r@.len() + pieces(s@, b).len() == all.len());
    loop
        invariant
            pos <= s@.len(),
            valid_utf8(s@.skip(pos as int)),
            b < 0x80,
            all == pieces(s@, b),
            r@.len() + pieces(s@.skip(pos as int), b).len() == all.len(),
            all.skip(r@.len() as int) == pieces(s@.skip(pos as int), b),
            forall|i: int| 0 <= i < r@.len() ==> #[trigger] r@[i]@ == decode_utf8(all[i]),
        decreases s@.len() - pos,
    {
        let ghost rest = s@.skip(pos as int);
        let ghost n: int = r@.len() as int;
        let end: usize = scan(s, pos, b);
        assert(s@.subrange(pos as int, end as int) =~= rest.take(end - pos));
        assert(all[n] == all.skip(n)[0]);
        if end >= s.len() {
            assert(rest.take(end - pos) =~= rest);
            r.push(text(slice_subrange(s, pos, s.len())));
            return r;
        }
        proof {
            lemma_split_at_ascii(rest, end - pos);
            assert(rest.skip(end - pos + 1) =~= s@.skip(end + 1));
            let tail = pieces(rest.skip(end - pos + 1), b);
            assert(pieces(rest, b) == seq![rest.take(end - pos)] + tail);
            assert(all.skip(n + 1) =~= tail) by {
                assert(all.skip(n + 1) =~= all.skip(n).skip(1));
                assert((seq![rest.take(end - pos)] + tail).skip(1) =~= tail);
            }
        }
        r.push(text(slice_subrange(s, pos, end)));
        pos = end + 1;
    }
}

} // verus!
