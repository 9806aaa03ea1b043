//! Block identifiers.
//!
//! A block is identified by a 128-bit value chosen at random when the block is
//! created. On the wire an id travels as exactly 16 raw bytes, most
//! significant byte first; anything of another length is rejected before any
//! disk is touched.

use crate::error::DataNodeError;
use crate::error::DataNodeErrorV;
use vstd::arithmetic::div_mod::lemma_div_is_strictly_smaller;
use vstd::arithmetic::div_mod::lemma_fundamental_div_mod;
use vstd::arithmetic::div_mod::lemma_fundamental_div_mod_converse;
use vstd::arithmetic::power::lemma_pow_adds;
use vstd::arithmetic::power::pow;
use vstd::prelude::*;
use vstd::slice::slice_to_vec;

verus! {

/// The value of a byte string read as one big-endian number.
pub open spec fn be_value(b: Seq<u8>) -> nat
    decreases b.len(),
{
    if b.len() == 0 {
        0
    } else {
        (be_value(b.drop_last()) * 256 + b.last()) as nat
    }
}

/// The `len`-byte big-endian encoding of `n` (mod `256^len`).
pub open spec fn be_bytes(n: nat, len: nat) -> Seq<u8>
    decreases len,
{
    if len == 0 {
        Seq::empty()
    } else {
        be_bytes(n / 256, (len - 1) as nat) + seq![(n % 256) as u8]
    }
}

/// The byte string a block id is sent as: 16 bytes, most significant first.
pub open spec fn id_bytes(id: u128) -> Seq<u8> {
    be_bytes(id as nat, 16)
}

/// A big-endian number of `len` bytes is below `256^len`.
pub proof fn lemma_be_value_bound(b: Seq<u8>)
    ensures
        be_value(b) < pow(256, b.len()),
    decreases b.len(),
{
    vstd::arithmetic::power::lemma_pow0(256);
    if b.len() > 0 {
        lemma_be_value_bound(b.drop_last());
        lemma_pow_adds(256, (b.len() - 1) as nat, 1);
        vstd::arithmetic::power::lemma_pow1(256);
        assert(be_value(b.drop_last()) * 256 + 255 < pow(256, (b.len() - 1) as nat) * 256)
            by (nonlinear_arith)
            requires
                be_value(b.drop_last()) < pow(256, (b.len() - 1) as nat),
        ;
    }
}

/// `be_bytes` always yields exactly `len` bytes.
pub proof fn lemma_be_bytes_len(n: nat, len: nat)
    ensures
        be_bytes(n, len).len() == len,
    decreases len,
{
    if len > 0 {
        lemma_be_bytes_len(n / 256, (len - 1) as nat);
    }
}

/// Decoding the big-endian encoding of `n < 256^len` gives `n` back.
pub proof fn lemma_be_bytes_value(n: nat, len: nat)
    requires
        n < pow(256, len),
    ensures
        be_value(be_bytes(n, len)) == n,
    decreases len,
{
    if len == 0 {
        vstd::arithmetic::power::lemma_pow0(256);
    } else {
        lemma_pow_adds(256, (len - 1) as nat, 1);
        vstd::arithmetic::power::lemma_pow1(256);
        assert(n / 256 < pow(256, (len - 1) as nat)) by (nonlinear_arith)
            requires
                n < pow(256, (len - 1) as nat) * 256,
                pow(256, (len - 1) as nat) > 0,
        ;
        lemma_be_bytes_value(n / 256, (len - 1) as nat);
        lemma_be_bytes_len(n / 256, (len - 1) as nat);
        let b = be_bytes(n, len);
        assert(b.drop_last() =~= be_bytes(n / 256, (len - 1) as nat));
        lemma_fundamental_div_mod(n as int, 256);
    }
}

/// Encoding the value of a `len`-byte string gives the string back: the wire
/// form of an id is unique.
pub proof fn lemma_be_value_bytes(b: Seq<u8>)
    ensures
        be_bytes(be_value(b), b.len()) == b,
    decreases b.len(),
{
    if b.len() > 0 {
        let n = be_value(b);
        lemma_fundamental_div_mod_converse(
            n as int,
            256,
            be_value(b.drop_last()) as int,
            b.last() as int,
        );
        lemma_be_value_bytes(b.drop_last());
        assert(be_bytes(n, b.len()) =~= b);
    }
}

/// `pow(256, 16)` is the number of 128-bit values.
proof fn lemma_pow_256_16()
    ensures
        pow(256, 16) == 0x1_0000_0000_0000_0000_0000_0000_0000_0000,
{
    reveal_with_fuel(pow, 17);
}

/// Relies on `uuid::Uuid::new_v4` (and `as_u128`, which returns the
/// identifier's 16 bytes read big-endian): a freshly drawn random version-4
/// identifier. Nothing can be promised of a random value.
#[verifier::external_body]
pub(crate) fn fresh_block_id() -> u128 {
    uuid::Uuid::new_v4().as_u128()
}

/// Parses a wire-format block id: exactly 16 raw bytes, big-endian.
/// Any other length yields `WrongUuid` carrying the offending bytes.
pub fn parse_block_id(bytes: &[u8]) -> (r: Result<u128, DataNodeError>)
    ensures
        bytes@.len() == 16 ==> r == Ok::<u128, DataNodeError>(be_value(bytes@) as u128),
        bytes@.len() != 16 ==> (r matches Err(e) && e@ == DataNodeErrorV::WrongUuid(bytes@)),
{
    if bytes.len() != 16 {
        return Err(DataNodeError::WrongUuid(slice_to_vec(bytes)));
    }
    let mut v: u128 = 0;
    let mut i: usize = 0;
    proof {
        vstd::arithmetic::power::lemma_pow0(256);
    }
    while i < 16
        invariant
            i <= 16,
            bytes@.len() == 16,
            v == be_value(bytes@.take(i as int)),
            v < pow(256, i as nat),
        decreases 16 - i,
    {
        proof {
            lemma_pow_adds(256, i as nat, 1);
            vstd::arithmetic::power::lemma_pow1(256);
            lemma_pow_256_16();
            vstd::arithmetic::power::lemma_pow_increases(256, (i + 1) as nat, 16);
            assert(v * 256 + 255 < pow(256, i as nat) * 256) by (nonlinear_arith)
                requires
                    v < pow(256, i as nat),
            ;
        }
        let b = bytes[i];
        let next: u128 = v * 256 + (b as u128);
        proof {
            assert(bytes@.take(i + 1).drop_last() =~= bytes@.take(i as int));
            assert(bytes@.take(i + 1).last() == bytes@[i as int]);
        }
        v = next;
        i = i + 1;
    }
    proof {
        assert(bytes@.take(16) =~= bytes@);
    }
    Ok(v)
}

/// Renders a block id in its wire format: 16 raw bytes, big-endian.
pub fn block_id_bytes(id: u128) -> (b: Vec<u8>)
    ensures
        b@ == id_bytes(id),
        b@.len() == 16,
        be_value(b@) == id,
{
    proof {
        lemma_be_bytes_len(id as nat, 16);
        lemma_pow_256_16();
        lemma_be_bytes_value(id as nat, 16);
    }
    be_bytes_exec(id, 16)
}

/// Builds the `len`-byte big-endian encoding of `n`.
fn be_bytes_exec(n: u128, len: usize) -> (b: Vec<u8>)
    ensures
        b@ == be_bytes(n as nat, len as nat),
    decreases len,
{
    if len == 0 {
        let b: Vec<u8> = Vec::new();
        proof {
            assert(b@ =~= be_bytes(n as nat, 0));
        }
        b
    } else {
        let mut b = be_bytes_exec(n / 256, len - 1);
        b.push((n % 256) as u8);
        proof {
            assert(b@ =~= be_bytes(n as nat, len as nat));
        }
        b
    }
}

/// Round trip over the wire: parsing the rendered bytes of an id yields that
/// id, and rendering a parsed 16-byte string yields the same bytes.
pub proof fn lemma_id_wire_round_trip(id: u128, b: Seq<u8>)
    requires
        b.len() == 16,
    ensures
        be_value(id_bytes(id)) == id,
        id_bytes(be_value(b) as u128) == b,
{
    lemma_pow_256_16();
    lemma_be_bytes_value(id as nat, 16);
    lemma_be_value_bound(b);
    lemma_be_value_bytes(b);
}

} // verus!
