//! The wire form of engine errors.
//!
//! The facade must carry a typed error across the wire so that a client can
//! reconstruct the error's kind and its parameters — an overflow error must
//! let the client recover both the configured and the actual size — rather
//! than see an opaque message. Each error is framed as a tag byte followed
//! by its payload: characters as little-endian 32-bit scalar values, raw
//! bytes as themselves, sizes as little-endian 64-bit values. Decoding is
//! strict: anything but an exact frame yields a `StatusToType` conversion
//! error.

use crate::error::res_view;
use crate::error::ConvertError;
use crate::error::ConvertErrorV;
use crate::error::DataNodeError;
use crate::error::DataNodeErrorV;
use vstd::bytes::spec_u32_to_le_bytes;
use vstd::bytes::spec_u32_from_le_bytes;
use vstd::bytes::spec_u64_to_le_bytes;
use vstd::bytes::spec_u64_from_le_bytes;
use vstd::bytes::u32_from_le_bytes;
use vstd::bytes::u32_to_le_bytes;
use vstd::bytes::u64_from_le_bytes;
use vstd::bytes::u64_to_le_bytes;
use vstd::prelude::*;
use vstd::slice::slice_subrange;
use vstd::slice::slice_to_vec;
use vstd::string::StrSliceExecFns;

verus! {

/// Relies on `char::from_u32`: `Some` exactly for valid Unicode scalar
/// values (not a surrogate, at most `char::MAX`), and then the `char` with
/// that value.
pub assume_specification[ char::from_u32 ](v: u32) -> (r: Option<char>)
    ensures
        r is Some <==> is_scalar_value(v),
        r matches Some(c) ==> c == v as char,
;

/// Relies on `String::push`: appends the given character to the end of this
/// string.
pub assume_specification[ String::push ](s: &mut String, c: char)
    ensures
        final(s)@ == old(s)@.push(c),
;

/// Whether `v` is a valid Unicode scalar value.
pub open spec fn is_scalar_value(v: u32) -> bool {
    v < 0xD800 || (0xE000 <= v && v <= 0x10FFFF)
}

/// Type validity of a character sequence: every element is a valid scalar
/// value that survives the trip through its 32-bit value. This holds of the
/// characters of every actual string; it is spelled out because it is not
/// attached to the elements of an abstract sequence.
pub open spec fn valid_chars(s: Seq<char>) -> bool {
    forall|i: int|
        0 <= i < s.len() ==> is_scalar_value((#[trigger] s[i]) as u32) && ((s[i] as u32) as char)
            == s[i]
}

/// The tag byte of each error kind.
pub open spec fn error_tag(e: DataNodeErrorV) -> u8 {
    match e {
        DataNodeErrorV::CreateBlockError(_) => 1,
        DataNodeErrorV::BlockNotFound(_) => 2,
        DataNodeErrorV::WrongUuid(_) => 3,
        DataNodeErrorV::ReadBlockError(_) => 4,
        DataNodeErrorV::UpdateBlockError(_) => 5,
        DataNodeErrorV::DeleteBlockError(_) => 6,
        DataNodeErrorV::NoSpace => 7,
        DataNodeErrorV::BlockOverflow(_, _) => 8,
    }
}

/// Characters as consecutive little-endian 32-bit scalar values.
pub open spec fn encode_chars(s: Seq<char>) -> Seq<u8>
    decreases s.len(),
{
    if s.len() == 0 {
        Seq::empty()
    } else {
        spec_u32_to_le_bytes(s.first() as u32) + encode_chars(s.drop_first())
    }
}

/// The wire frame of an error: its tag byte followed by its payload, which
/// runs to the end of the frame.
pub open spec fn spec_encode_error(e: DataNodeErrorV) -> Seq<u8> {
    seq![error_tag(e)] + match e {
        DataNodeErrorV::CreateBlockError(s) => encode_chars(s),
        DataNodeErrorV::BlockNotFound(s) => encode_chars(s),
        DataNodeErrorV::WrongUuid(b) => b,
        DataNodeErrorV::ReadBlockError(s) => encode_chars(s),
        DataNodeErrorV::UpdateBlockError(s) => encode_chars(s),
        DataNodeErrorV::DeleteBlockError(s) => encode_chars(s),
        DataNodeErrorV::NoSpace => Seq::empty(),
        DataNodeErrorV::BlockOverflow(bs, got) => spec_u64_to_le_bytes(bs as u64)
            + spec_u64_to_le_bytes(got as u64),
    }
}

/// What decoding reports for any malformed frame.
pub open spec fn decode_failure() -> ConvertErrorV {
    ConvertErrorV::StatusToType("malformed wire error"@)
}

/// Characters read back from consecutive little-endian 32-bit groups:
/// `None` on a trailing partial group or a value that is no scalar value.
pub open spec fn decode_chars(b: Seq<u8>) -> Option<Seq<char>>
    decreases b.len(),
{
    if b.len() == 0 {
        Some(Seq::empty())
    } else if b.len() < 4 {
        None
    } else {
        let v = spec_u32_from_le_bytes(b.take(4));
        if is_scalar_value(v) {
            match decode_chars(b.skip(4)) {
                Some(s) => Some(seq![v as char] + s),
                None => None,
            }
        } else {
            None
        }
    }
}

/// The decoded error of a wire frame: strict, total on byte strings.
pub open spec fn spec_decode_error(b: Seq<u8>) -> Result<DataNodeErrorV, ConvertErrorV> {
    if b.len() < 1 {
        Err(decode_failure())
    } else {
        let rest = b.skip(1);
        if b[0] == 1 || b[0] == 2 || b[0] == 4 || b[0] == 5 || b[0] == 6 {
            match decode_chars(rest) {
                Some(s) => Ok(
                    if b[0] == 1 {
                        DataNodeErrorV::CreateBlockError(s)
                    } else if b[0] == 2 {
                        DataNodeErrorV::BlockNotFound(s)
                    } else if b[0] == 4 {
                        DataNodeErrorV::ReadBlockError(s)
                    } else if b[0] == 5 {
                        DataNodeErrorV::UpdateBlockError(s)
                    } else {
                        DataNodeErrorV::DeleteBlockError(s)
                    },
                ),
                None => Err(decode_failure()),
            }
        } else if b[0] == 3 {
            Ok(DataNodeErrorV::WrongUuid(rest))
        } else if b[0] == 7 {
            if rest.len() == 0 {
                Ok(DataNodeErrorV::NoSpace)
            } else {
                Err(decode_failure())
            }
        } else if b[0] == 8 {
            if rest.len() == 16 {
                let bs = spec_u64_from_le_bytes(rest.take(8));
                let got = spec_u64_from_le_bytes(rest.skip(8));
                if bs <= usize::MAX && got <= usize::MAX {
                    Ok(DataNodeErrorV::BlockOverflow(bs as int, got as int))
                } else {
                    Err(decode_failure())
                }
            } else {
                Err(decode_failure())
            }
        } else {
            Err(decode_failure())
        }
    }
}

/// Appending one character extends the character encoding by one group.
proof fn lemma_encode_chars_push(s: Seq<char>, c: char)
    ensures
        encode_chars(s.push(c)) == encode_chars(s) + spec_u32_to_le_bytes(c as u32),
    decreases s.len(),
{
    vstd::bytes::lemma_auto_spec_u32_to_from_le_bytes();

    if s.len() == 0 {
        assert(s.push(c).drop_first() =~= Seq::<char>::empty());
        assert(s.push(c).first() == c);
        assert(encode_chars(Seq::<char>::empty()) == Seq::<u8>::empty());
        assert(encode_chars(s.push(c)) =~= encode_chars(s) + spec_u32_to_le_bytes(c as u32));
    } else {
        lemma_encode_chars_push(s.drop_first(), c);
        assert(s.push(c).drop_first() =~= s.drop_first().push(c));
        assert(s.push(c).first() == s.first());
        assert(encode_chars(s.push(c)) =~= encode_chars(s) + spec_u32_to_le_bytes(c as u32));
    }
}

/// Character encoding round trip: decoding the encoded characters gives
/// them back.
proof fn lemma_decode_encode_chars(s: Seq<char>)
    requires
        valid_chars(s),
    ensures
        decode_chars(encode_chars(s)) == Some(s),
    decreases s.len(),
{
    vstd::bytes::lemma_auto_spec_u32_to_from_le_bytes();

    if s.len() > 0 {
        let b = encode_chars(s);
        let head = spec_u32_to_le_bytes(s.first() as u32);
        assert(b.take(4) =~= head);
        assert(b.skip(4) =~= encode_chars(s.drop_first()));
        assert(valid_chars(s.drop_first())) by {
            assert(forall|i: int|
                0 <= i < s.drop_first().len() ==> #[trigger] s.drop_first()[i] == s[i + 1]);
        }
        lemma_decode_encode_chars(s.drop_first());
        assert(s.first() == s[0]);
        assert(spec_u32_from_le_bytes(b.take(4)) == s.first() as u32);
        assert(((s.first() as u32) as char) == s.first());
        assert(seq![(s.first() as u32) as char] + s.drop_first() =~= s);
    }
}

/// Type validity of an abstract error: its sizes fit the wire frame and its
/// text payloads are made of valid characters. Every error value built by
/// this library's executable code satisfies this.
pub open spec fn bounded_error(e: DataNodeErrorV) -> bool {
    match e {
        DataNodeErrorV::CreateBlockError(s) => valid_chars(s),
        DataNodeErrorV::BlockNotFound(s) => valid_chars(s),
        DataNodeErrorV::WrongUuid(_) => true,
        DataNodeErrorV::ReadBlockError(s) => valid_chars(s),
        DataNodeErrorV::UpdateBlockError(s) => valid_chars(s),
        DataNodeErrorV::DeleteBlockError(s) => valid_chars(s),
        DataNodeErrorV::NoSpace => true,
        DataNodeErrorV::BlockOverflow(bs, got) => 0 <= bs <= usize::MAX && 0 <= got <= usize::MAX,
    }
}

/// The wire boundary round-trips an error: decoding an encoded error yields
/// exactly the error's kind and its parameters.
pub proof fn lemma_error_round_trip(e: DataNodeErrorV)
    requires
        bounded_error(e),
    ensures
        spec_decode_error(spec_encode_error(e)) == Ok::<DataNodeErrorV, ConvertErrorV>(e),
{
    vstd::bytes::lemma_auto_spec_u64_to_from_le_bytes();

    let b = spec_encode_error(e);
    assert(b[0] == error_tag(e));
    match e {
        DataNodeErrorV::CreateBlockError(s) => {
            assert(b.skip(1) =~= encode_chars(s));
            lemma_decode_encode_chars(s);
        },
        DataNodeErrorV::BlockNotFound(s) => {
            assert(b.skip(1) =~= encode_chars(s));
            lemma_decode_encode_chars(s);
        },
        DataNodeErrorV::WrongUuid(raw) => {
            assert(b.skip(1) =~= raw);
        },
        DataNodeErrorV::ReadBlockError(s) => {
            assert(b.skip(1) =~= encode_chars(s));
            lemma_decode_encode_chars(s);
        },
        DataNodeErrorV::UpdateBlockError(s) => {
            assert(b.skip(1) =~= encode_chars(s));
            lemma_decode_encode_chars(s);
        },
        DataNodeErrorV::DeleteBlockError(s) => {
            assert(b.skip(1) =~= encode_chars(s));
            lemma_decode_encode_chars(s);
        },
        DataNodeErrorV::NoSpace => {
            assert(b.skip(1) =~= Seq::<u8>::empty());
        },
        DataNodeErrorV::BlockOverflow(bs, got) => {
            let rest = b.skip(1);
            assert(rest =~= spec_u64_to_le_bytes(bs as u64) + spec_u64_to_le_bytes(got as u64));
            assert(rest.take(8) =~= spec_u64_to_le_bytes(bs as u64));
            assert(rest.skip(8) =~= spec_u64_to_le_bytes(got as u64));
        },
    }
}

/// Renders the characters of `s` as consecutive little-endian 32-bit
/// groups, appended to `out`.
fn encode_chars_onto(s: &str, out: &mut Vec<u8>)
    ensures
        final(out)@ == old(out)@ + encode_chars(s@),
{
    let n = s.unicode_len();
    let ghost base = out@;
    let mut i: usize = 0;
    proof {
        assert(base + encode_chars(s@.take(0)) =~= base);
    }
    while i < n
        invariant
            i <= n,
            n == s@.len(),
            out@ == base + encode_chars(s@.take(i as int)),
        decreases n - i,
    {
        let c = s.get_char(i);
        let mut group = u32_to_le_bytes(c as u32);
        out.append(&mut group);
        proof {
            assert(s@.take(i + 1) =~= s@.take(i as int).push(s@[i as int]));
            lemma_encode_chars_push(s@.take(i as int), s@[i as int]);
        }
        i = i + 1;
    }
    proof {
        assert(s@.take(n as int) =~= s@);
    }
}

/// Renders an error in its wire frame.
pub fn encode_error(e: &DataNodeError) -> (r: Vec<u8>)
    ensures
        r@ == spec_encode_error(e@),
{
    let mut out: Vec<u8> = Vec::new();
    match e {
        DataNodeError::CreateBlockError(s) => {
            out.push(1);
            encode_chars_onto(s.as_str(), &mut out);
        },
        DataNodeError::BlockNotFound(s) => {
            out.push(2);
            encode_chars_onto(s.as_str(), &mut out);
        },
        DataNodeError::WrongUuid(raw) => {
            out.push(3);
            let mut payload = slice_to_vec(raw.as_slice());
            out.append(&mut payload);
        },
        DataNodeError::ReadBlockError(s) => {
            out.push(4);
            encode_chars_onto(s.as_str(), &mut out);
        },
        DataNodeError::UpdateBlockError(s) => {
            out.push(5);
            encode_chars_onto(s.as_str(), &mut out);
        },
        DataNodeError::DeleteBlockError(s) => {
            out.push(6);
            encode_chars_onto(s.as_str(), &mut out);
        },
        DataNodeError::NoSpace => {
            out.push(7);
        },
        DataNodeError::BlockOverflow(bs, got) => {
            out.push(8);
            let mut a = u64_to_le_bytes(*bs as u64);
            out.append(&mut a);
            let mut b = u64_to_le_bytes(*got as u64);
            out.append(&mut b);
        },
    }
    proof {
        assert(out@ =~= spec_encode_error(e@));
    }
    out
}

/// Each little-endian 32-bit group of a character payload.
pub open spec fn char_group(b: Seq<u8>, i: int) -> u32 {
    spec_u32_from_le_bytes(b.subrange(4 * i, 4 * i + 4))
}

/// A character payload whose every group is a valid scalar value decodes to
/// exactly those characters.
proof fn lemma_decode_chars_groups(b: Seq<u8>, s: Seq<char>)
    requires
        b.len() == 4 * s.len(),
        forall|j: int|
            0 <= j < s.len() ==> is_scalar_value(#[trigger] char_group(b, j)) && s[j] == char_group(
                b,
                j,
            ) as char,
    ensures
        decode_chars(b) == Some(s),
    decreases s.len(),
{
    if s.len() > 0 {
        assert(char_group(b, 0) == spec_u32_from_le_bytes(b.take(4))) by {
            assert(b.subrange(0, 4) =~= b.take(4));
        }
        let rest = b.skip(4);
        assert forall|j: int| 0 <= j < s.drop_first().len() implies is_scalar_value(
            #[trigger] char_group(rest, j),
        ) && s.drop_first()[j] == char_group(rest, j) as char by {
            assert(rest.subrange(4 * j, 4 * j + 4) =~= b.subrange(4 * (j + 1), 4 * (j + 1) + 4));
            assert(char_group(b, j + 1) == char_group(rest, j));
        }
        lemma_decode_chars_groups(rest, s.drop_first());
        assert(seq![(char_group(b, 0) as u32) as char] + s.drop_first() =~= s);
    } else {
        assert(b.len() == 0);
    }
}

/// A character payload with a group that is no valid scalar value does not
/// decode.
proof fn lemma_decode_chars_bad_group(b: Seq<u8>, i: int)
    requires
        b.len() % 4 == 0,
        0 <= i,
        4 * i + 4 <= b.len(),
        !is_scalar_value(char_group(b, i)),
    ensures
        decode_chars(b) is None,
    decreases b.len(),
{
    assert(b.len() >= 4);
    if i == 0 {
        assert(b.subrange(0, 4) =~= b.take(4));
    } else {
        let rest = b.skip(4);
        assert(rest.subrange(4 * (i - 1), 4 * (i - 1) + 4) =~= b.subrange(4 * i, 4 * i + 4));
        assert(char_group(rest, i - 1) == char_group(b, i));
        lemma_decode_chars_bad_group(rest, i - 1);
    }
}

/// A character payload of a length that is no multiple of four does not
/// decode.
proof fn lemma_decode_chars_ragged(b: Seq<u8>)
    requires
        b.len() % 4 != 0,
    ensures
        decode_chars(b) is None,
    decreases b.len(),
{
    if b.len() >= 4 {
        lemma_decode_chars_ragged(b.skip(4));
    }
}

/// Reads a character payload back; `None` on any malformation.
fn decode_chars_exec(b: &[u8]) -> (r: Option<String>)
    ensures
        match r {
            Some(s) => decode_chars(b@) == Some(s@),
            None => decode_chars(b@) is None,
        },
{
    if b.len() % 4 != 0 {
        proof {
            lemma_decode_chars_ragged(b@);
        }
        return None;
    }
    let n = b.len() / 4;
    proof {
        vstd::arithmetic::div_mod::lemma_fundamental_div_mod(b@.len() as int, 4);
    }
    let mut out = String::new();
    let mut i: usize = 0;
    while i < n
        invariant
            i <= n,
            n == b@.len() / 4,
            b@.len() % 4 == 0,
            b@.len() == 4 * n,
            b@.len() <= usize::MAX,
            out@.len() == i,
            forall|j: int|
                0 <= j < i ==> is_scalar_value(#[trigger] char_group(b@, j)) && out@[j]
                    == char_group(b@, j) as char,
        decreases n - i,
    {
        let group = u32_from_le_bytes(slice_subrange(b, 4 * i, 4 * i + 4));
        proof {
            assert(char_group(b@, i as int) == group);
        }
        match char::from_u32(group) {
            Some(c) => {
                out.push(c);
            },
            None => {
                proof {
                    lemma_decode_chars_bad_group(b@, i as int);
                }
                return None;
            },
        }
        i = i + 1;
    }
    proof {
        lemma_decode_chars_groups(b@, out@);
    }
    Some(out)
}

/// The conversion error every malformed frame is reported as.
fn decode_failure_exec() -> (r: ConvertError)
    ensures
        r@ == decode_failure(),
{
    ConvertError::StatusToType(String::from_str("malformed wire error"))
}

/// Reads an error back from its wire frame. Strict: exactly the frames
/// `encode_error` produces are accepted, and decoding an encoded error
/// yields the error's kind and parameters unchanged.
pub fn decode_error(bytes: &[u8]) -> (r: Result<DataNodeError, ConvertError>)
    ensures
        res_view(r) == spec_decode_error(bytes@),
{
    if bytes.len() < 1 {
        return Err(decode_failure_exec());
    }
    let tag = bytes[0];
    let rest = slice_subrange(bytes, 1, bytes.len());
    proof {
        assert(rest@ =~= bytes@.skip(1));
    }
    if tag == 1 || tag == 2 || tag == 4 || tag == 5 || tag == 6 {
        match decode_chars_exec(rest) {
            Some(s) => Ok(
                if tag == 1 {
                    DataNodeError::CreateBlockError(s)
                } else if tag == 2 {
                    DataNodeError::BlockNotFound(s)
                } else if tag == 4 {
                    DataNodeError::ReadBlockError(s)
                } else if tag == 5 {
                    DataNodeError::UpdateBlockError(s)
                } else {
                    DataNodeError::DeleteBlockError(s)
                },
            ),
            None => Err(decode_failure_exec()),
        }
    } else if tag == 3 {
        Ok(DataNodeError::WrongUuid(slice_to_vec(rest)))
    } else if tag == 7 {
        if rest.len() == 0 {
            proof {
                assert(bytes@.skip(1) =~= Seq::<u8>::empty());
            }
            Ok(DataNodeError::NoSpace)
        } else {
            Err(decode_failure_exec())
        }
    } else if tag == 8 {
        if rest.len() == 16 {
            let bs64 = u64_from_le_bytes(slice_subrange(rest, 0, 8));
            let got64 = u64_from_le_bytes(slice_subrange(rest, 8, 16));
            proof {
                assert(rest@.subrange(0, 8) =~= rest@.take(8));
                assert(rest@.subrange(8, 16) =~= rest@.skip(8));
            }
            if bs64 <= usize::MAX as u64 && got64 <= usize::MAX as u64 {
                Ok(DataNodeError::BlockOverflow(bs64 as usize, got64 as usize))
            } else {
                Err(decode_failure_exec())
            }
        } else {
            Err(decode_failure_exec())
        }
    } else {
        Err(decode_failure_exec())
    }
}

} // verus!
