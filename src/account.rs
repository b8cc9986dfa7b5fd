//! Ledger account identifiers: CRC-32 over the SHA-224 of a principal with
//! the default subaccount, written as lowercase hex.

use vstd::prelude::*;
use crate::json::hex_digit;
use crate::text::push_char;

verus! {

/// The SHA-224 digest of `data`.
pub uninterp spec fn sha224_of(data: Seq<u8>) -> Seq<u8>;

/// Relies on `sha2::Sha224::digest`: the 28-byte SHA-224 digest of the data.
#[verifier::external_body]
fn sha224(data: &[u8]) -> (r: Vec<u8>)
    ensures
        r@ == sha224_of(data@),
        r@.len() == 28,
{
    <sha2::Sha224 as sha2::Digest>::digest(data).to_vec()
}

/// One bit step of the reflected CRC-32 (ISO 3309) register.
pub open spec fn crc_shift(c: u32) -> u32 {
    if c & 1 != 0 {
        (c >> 1) ^ 0xEDB88320u32
    } else {
        c >> 1
    }
}

pub open spec fn crc_shifts(c: u32, k: nat) -> u32
    decreases k,
{
    if k == 0 {
        c
    } else {
        crc_shift(crc_shifts(c, (k - 1) as nat))
    }
}

/// The register after all of `data`, from the all-ones start.
pub open spec fn crc_register(data: Seq<u8>) -> u32
    decreases data.len(),
{
    if data.len() == 0 {
        0xFFFF_FFFFu32
    } else {
        crc_shifts(crc_register(data.drop_last()) ^ (data.last() as u32), 8)
    }
}

/// The CRC-32 of `data`.
pub open spec fn crc32_of(data: Seq<u8>) -> u32 {
    !crc_register(data)
}

/// CRC-32 (ISO 3309), bit by bit.
pub fn crc32(data: &[u8]) -> (r: u32)
    ensures
        r == crc32_of(data@),
{
    let mut crc: u32 = 0xFFFF_FFFF;
    let mut i: usize = 0;
    while i < data.len()
        invariant
            i <= data@.len(),
            crc == crc_register(data@.subrange(0, i as int)),
        decreases data@.len() - i,
    {
        assert(data@.subrange(0, i + 1).drop_last() =~= data@.subrange(0, i as int));
        let start = crc ^ (data[i] as u32);
        crc = start;
        let mut k: u32 = 0;
        while k < 8
            invariant
                k <= 8,
                crc == crc_shifts(start, k as nat),
            decreases 8 - k,
        {
            crc = if crc & 1 != 0 {
                (crc >> 1) ^ 0xEDB88320u32
            } else {
                crc >> 1
            };
            k = k + 1;
        }
        i = i + 1;
    }
    assert(data@.subrange(0, i as int) =~= data@);
    !crc
}

/// `x` as four big-endian bytes.
pub open spec fn be32(x: u32) -> Seq<u8> {
    seq![(x >> 24) as u8, ((x >> 16) & 0xff) as u8, ((x >> 8) & 0xff) as u8, (x & 0xff) as u8]
}

/// `bytes` as lowercase hex, two digits each.
pub open spec fn hex_of(bytes: Seq<u8>) -> Seq<char>
    decreases bytes.len(),
{
    if bytes.len() == 0 {
        Seq::empty()
    } else {
        hex_of(bytes.drop_last()) + seq![
            hex_digit((bytes.last() / 16) as nat),
            hex_digit((bytes.last() % 16) as nat),
        ]
    }
}

fn hex_char(d: u8) -> (r: char)
    requires
        d < 16,
    ensures
        r == hex_digit(d as nat),
{
    if d < 10 {
        (d + 48u8) as char
    } else {
        (d + 87u8) as char
    }
}

fn push_hex(out: &mut String, bytes: &Vec<u8>)
    ensures
        final(out)@ == old(out)@ + hex_of(bytes@),
{
    let mut i: usize = 0;
    while i < bytes.len()
        invariant
            i <= bytes@.len(),
            out@ == old(out)@ + hex_of(bytes@.subrange(0, i as int)),
        decreases bytes@.len() - i,
    {
        assert(bytes@.subrange(0, i + 1).drop_last() =~= bytes@.subrange(0, i as int));
        let b = bytes[i];
        push_char(out, hex_char(b / 16));
        push_char(out, hex_char(b % 16));
        assert(out@ =~= old(out)@ + hex_of(bytes@.subrange(0, i + 1)));
        i = i + 1;
    }
    assert(bytes@.subrange(0, i as int) =~= bytes@);
}

/// The account identifier for a principal's digest: the CRC-32 of the
/// digest, big-endian, then the digest, in hex.
pub open spec fn account_id_hex(hash: Seq<u8>) -> Seq<char> {
    hex_of(be32(crc32_of(hash)) + hash)
}

/// What is hashed for a principal: a length-prefixed `account-id` domain
/// separator, the principal's bytes and the all-zero default subaccount.
pub open spec fn account_input(principal: Seq<u8>) -> Seq<u8> {
    seq![0x0Au8, 0x61u8, 0x63u8, 0x63u8, 0x6fu8, 0x75u8, 0x6eu8, 0x74u8, 0x2du8, 0x69u8, 0x64u8]
        + principal + Seq::new(32, |i: int| 0u8)
}

/// Writes the account identifier for a given digest.
pub fn account_id_from_hash(hash: &Vec<u8>) -> (r: String)
    ensures
        r@ == account_id_hex(hash@),
{
    let c = crc32(hash.as_slice());
    let mut bytes: Vec<u8> = Vec::new();
    bytes.push((c >> 24) as u8);
    bytes.push(((c >> 16) & 0xff) as u8);
    bytes.push(((c >> 8) & 0xff) as u8);
    bytes.push((c & 0xff) as u8);
    let mut h = hash.clone();
    bytes.append(&mut h);
    assert(bytes@ =~= be32(crc32_of(hash@)) + hash@);
    let mut out = String::new();
    push_hex(&mut out, &bytes);
    assert(Seq::<char>::empty() + hex_of(bytes@) =~= hex_of(bytes@));
    out
}

/// The ledger account identifier of a principal, given as its raw bytes.
pub fn derive_account_id(principal: &[u8]) -> (r: String)
    ensures
        r@ == account_id_hex(sha224_of(account_input(principal@))),
{
    let mut input: Vec<u8> = Vec::new();
    input.push(0x0Au8);
    input.push(0x61u8);
    input.push(0x63u8);
    input.push(0x63u8);
    input.push(0x6fu8);
    input.push(0x75u8);
    input.push(0x6eu8);
    input.push(0x74u8);
    input.push(0x2du8);
    input.push(0x69u8);
    input.push(0x64u8);
    let mut p = vstd::slice::slice_to_vec(principal);
    input.append(&mut p);
    let mut k: usize = 0;
    while k < 32
        invariant
            k <= 32,
            input@ == seq![0x0Au8, 0x61u8, 0x63u8, 0x63u8, 0x6fu8, 0x75u8, 0x6eu8, 0x74u8, 0x2du8, 0x69u8, 0x64u8]
                + principal@ + Seq::new(k as nat, |i: int| 0u8),
        decreases 32 - k,
    {
        input.push(0u8);
        k = k + 1;
        assert(input@ =~= seq![0x0Au8, 0x61u8, 0x63u8, 0x63u8, 0x6fu8, 0x75u8, 0x6eu8, 0x74u8, 0x2du8, 0x69u8, 0x64u8]
                + principal@ + Seq::new(k as nat, |i: int| 0u8));
    }
    let hash = sha224(input.as_slice());
    account_id_from_hash(&hash)
}

} // verus!
