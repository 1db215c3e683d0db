//! Script building blocks: data pushes, small integers, and hashing into witness programs.
use vstd::prelude::*;

verus! {

/// `bitcoin::Script::wscript_hash` (SHA-256 of the script).
pub uninterp spec fn wscript_hash_of(script: Seq<u8>) -> Seq<u8>;

pub const OP_CHECKSIG: u8 = 0xac;

pub const OP_CHECKMULTISIG: u8 = 0xae;

/// A push of fewer than 76 bytes: the length, then the bytes.
pub open spec fn push_spec(d: Seq<u8>) -> Seq<u8> {
    seq![d.len() as u8] + d
}

/// The shortest push of a small number.
pub open spec fn push_int_spec(n: nat) -> Seq<u8> {
    if n == 0 {
        seq![0u8]
    } else if n <= 16 {
        seq![(0x50 + n) as u8]
    } else {
        seq![1u8, n as u8]
    }
}

pub open spec fn push_int_len(n: nat) -> nat {
    if 1 <= n <= 16 || n == 0 {
        1
    } else {
        2
    }
}

/// Length of the compact-size prefix that encodes `n`.
pub open spec fn varint_len_spec(n: nat) -> nat {
    if n < 0xfd {
        1
    } else if n <= 0xffff {
        3
    } else if n <= 0xffff_ffff {
        5
    } else {
        9
    }
}

pub fn varint_len(n: usize) -> (r: usize)
    ensures
        r == varint_len_spec(n as nat),
{
    if n < 0xfd {
        1
    } else if n <= 0xffff {
        3
    } else if (n as u64) <= 0xffff_ffffu64 {
        5
    } else {
        9
    }
}

pub fn push_bytes(out: &mut Vec<u8>, d: &Vec<u8>)
    requires
        d@.len() < 76,
    ensures
        final(out)@ == old(out)@ + push_spec(d@),
{
    let ghost start = out@;
    out.push(d.len() as u8);
    let mut i: usize = 0;
    while i < d.len()
        invariant
            i <= d@.len(),
            d@.len() < 76,
            out@ =~= start + seq![d@.len() as u8] + d@.subrange(0, i as int),
        decreases d@.len() - i,
    {
        out.push(d[i]);
        i = i + 1;
    }
    assert(d@.subrange(0, d@.len() as int) =~= d@);
}

pub fn push_int(out: &mut Vec<u8>, n: usize)
    requires
        n <= 127,
    ensures
        final(out)@ == old(out)@ + push_int_spec(n as nat),
        push_int_spec(n as nat).len() == push_int_len(n as nat),
{
    if n == 0 {
        out.push(0u8);
    } else if n <= 16 {
        out.push((0x50 + n) as u8);
    } else {
        out.push(1u8);
        out.push(n as u8);
    }
}

/// Relies on `bitcoin::Script::to_v0_p2wsh`: the version-0 witness program
/// `OP_0 <32-byte SHA-256 of the script>`.
#[verifier::external_body]
pub(crate) fn p2wsh_script(script: &Vec<u8>) -> (r: Vec<u8>)
    ensures
        r@.len() == 34,
        r@ == seq![0x00u8, 0x20u8] + wscript_hash_of(script@),
{
    bitcoin::Script::from(script.clone()).to_v0_p2wsh().into_bytes()
}

/// `bitcoin::Address::p2wsh`: the address of the witness-script-hash output on a network.
pub uninterp spec fn p2wsh_address_of(script: Seq<u8>, network: bitcoin::Network) -> bitcoin::Address;

/// Relies on `bitcoin::Address::p2wsh`, which commits to the script's SHA-256 and
/// depends on the script and the network alone.
#[verifier::external_body]
pub(crate) fn p2wsh_address(script: &Vec<u8>, network: bitcoin::Network) -> (r: bitcoin::Address)
    ensures
        r == p2wsh_address_of(script@, network),
{
    bitcoin::Address::p2wsh(&bitcoin::Script::from(script.clone()), network)
}

} // verus!
