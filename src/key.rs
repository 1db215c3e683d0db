//! Public keys as their SEC serialization, and the bitcoin calls made on them.
use vstd::prelude::*;

verus! {

/// A bitcoin address; opaque here, produced by the bitcoin crate.
#[verifier::external_type_specification]
#[verifier::external_body]
pub struct ExAddress(bitcoin::Address);

/// The network an address is encoded for; opaque here.
#[verifier::external_type_specification]
#[verifier::external_body]
pub struct ExNetwork(bitcoin::Network);

/// What `bitcoin::PublicKey::from_str` followed by `to_bytes` gives for a text.
pub uninterp spec fn parsed_key_of(s: Seq<char>) -> Option<Seq<u8>>;

/// `bitcoin::PublicKey::pubkey_hash` (HASH160 of the serialization).
pub uninterp spec fn pubkey_hash_of(key: Seq<u8>) -> Seq<u8>;

/// `bitcoin::PublicKey::wpubkey_hash` (HASH160 of a compressed serialization).
pub uninterp spec fn wpubkey_hash_of(key: Seq<u8>) -> Seq<u8>;

pub open spec fn hex_digits() -> Seq<char> {
    "0123456789abcdef"@
}

/// Lower-case hexadecimal text of `b`, two digits per byte.
pub open spec fn hex_of(b: Seq<u8>) -> Seq<char> {
    Seq::new(
        2 * b.len(),
        |i: int|
            if i % 2 == 0 {
                hex_digits()[(b[i / 2] / 16) as int]
            } else {
                hex_digits()[(b[i / 2] % 16) as int]
            },
    )
}

/// A key serialization that the bitcoin parser accepts back from its own text.
pub open spec fn valid_key_bytes(b: Seq<u8>) -> bool {
    &&& (b.len() == 33 || b.len() == 65)
    &&& parsed_key_of(hex_of(b)) == Some(b)
}

/// A secp256k1 public key, held as its 33-byte (compressed) or 65-byte
/// (uncompressed) serialization.
#[derive(Clone, Debug, PartialEq, Eq, PartialOrd, Ord, Hash)]
pub struct PublicKey {
    pub bytes: Vec<u8>,
}

impl View for PublicKey {
    type V = Seq<u8>;

    open spec fn view(&self) -> Seq<u8> {
        self.bytes@
    }
}

/// Relies on `bitcoin::PublicKey::from_str`: it takes 66 or 130 hex digits, decodes
/// them, checks the point with secp256k1, and `to_bytes` serializes the point back
/// in the same form; parsing that serialization's text gives the same key again.
#[verifier::external_body]
fn parse_key_bytes(s: &str) -> (r: Option<Vec<u8>>)
    ensures
        r.is_some() == parsed_key_of(s@).is_some(),
        r matches Some(b) ==> parsed_key_of(s@) == Some(b@),
        r matches Some(b) ==> (b@.len() == 33 && s@.len() == 66) || (b@.len() == 65 && s@.len() == 130),
        r matches Some(b) ==> parsed_key_of(hex_of(b@)) == Some(b@),
{
    <bitcoin::PublicKey as std::str::FromStr>::from_str(s).ok().map(|k| k.to_bytes())
}

/// Relies on `bitcoin::Address::p2pkh(..).script_pubkey()`: the legacy template
/// `OP_DUP OP_HASH160 <20-byte pubkey hash> OP_EQUALVERIFY OP_CHECKSIG`.
#[verifier::external_body]
pub(crate) fn p2pkh_script(b: &Vec<u8>) -> (r: Vec<u8>)
    requires
        valid_key_bytes(b@),
    ensures
        r@.len() == 25,
        r@ == seq![0x76u8, 0xa9u8, 0x14u8] + pubkey_hash_of(b@) + seq![0x88u8, 0xacu8],
{
    let pk = bitcoin::PublicKey::from_slice(b).expect("valid key bytes");
    bitcoin::Address::p2pkh(&pk, bitcoin::Network::Bitcoin).script_pubkey().into_bytes()
}

/// Relies on `bitcoin::Address::p2wpkh(..).script_pubkey()`: the version-0 witness
/// program `OP_0 <20-byte hash>`; it fails only on an uncompressed key.
#[verifier::external_body]
pub(crate) fn p2wpkh_script(b: &Vec<u8>) -> (r: Vec<u8>)
    requires
        valid_key_bytes(b@),
        b@.len() == 33,
    ensures
        r@.len() == 22,
        r@ == seq![0x00u8, 0x14u8] + wpubkey_hash_of(b@),
{
    let pk = bitcoin::PublicKey::from_slice(b).expect("valid key bytes");
    bitcoin::Address::p2wpkh(&pk, bitcoin::Network::Bitcoin).expect("compressed key").script_pubkey().into_bytes()
}

/// `bitcoin::Address::p2wpkh`: the address of the key's witness program on a network.
pub uninterp spec fn p2wpkh_address_of(key: Seq<u8>, network: bitcoin::Network) -> bitcoin::Address;

/// Relies on `bitcoin::Address::p2wpkh`, which fails only on an uncompressed key and
/// depends on the key and the network alone.
#[verifier::external_body]
pub(crate) fn p2wpkh_address(b: &Vec<u8>, network: bitcoin::Network) -> (r: bitcoin::Address)
    requires
        valid_key_bytes(b@),
        b@.len() == 33,
    ensures
        r == p2wpkh_address_of(b@, network),
{
    let pk = bitcoin::PublicKey::from_slice(b).expect("valid key bytes");
    bitcoin::Address::p2wpkh(&pk, network).expect("compressed key")
}

/// Relies on `bitcoin::PublicKey::pubkey_hash`.
#[verifier::external_body]
pub(crate) fn pubkey_hash(b: &Vec<u8>) -> (r: Vec<u8>)
    requires
        valid_key_bytes(b@),
    ensures
        r@ == pubkey_hash_of(b@),
{
    let pk = bitcoin::PublicKey::from_slice(b).expect("valid key bytes");
    pk.pubkey_hash().to_vec()
}

impl PublicKey {
    pub open spec fn wf(&self) -> bool {
        valid_key_bytes(self@)
    }

    pub open spec fn spec_is_uncompressed(&self) -> bool {
        self@.len() == 65
    }

    /// Parses the hexadecimal text of a serialized key.
    pub fn from_str(s: &str) -> (r: Option<PublicKey>)
        ensures
            r.is_some() == parsed_key_of(s@).is_some(),
            r matches Some(k) ==> k.wf() && parsed_key_of(s@) == Some(k@),
    {
        match parse_key_bytes(s) {
            Some(bytes) => Some(PublicKey { bytes }),
            None => None,
        }
    }

    /// Whether the key is in its 65-byte uncompressed form.
    pub fn is_uncompressed(&self) -> (r: bool)
        ensures
            r == self.spec_is_uncompressed(),
    {
        self.bytes.len() == 65
    }

    /// The serialization.
    pub fn to_bytes(&self) -> (r: Vec<u8>)
        ensures
            r@ == self@,
    {
        let mut out: Vec<u8> = Vec::new();
        let mut i: usize = 0;
        while i < self.bytes.len()
            invariant
                i <= self@.len(),
                out@ =~= self@.subrange(0, i as int),
            decreases self@.len() - i,
        {
            out.push(self.bytes[i]);
            i = i + 1;
        }
        out
    }

    /// A copy of the key.
    pub fn duplicate(&self) -> (r: PublicKey)
        ensures
            r@ == self@,
    {
        PublicKey { bytes: self.to_bytes() }
    }

    /// Lower-case hexadecimal text of the serialization.
    pub fn to_string(&self) -> (r: String)
        ensures
            r@ == hex_of(self@),
    {
        let digits: &str = "0123456789abcdef";
        proof {
            reveal_strlit("0123456789abcdef");
        }
        assert(digits@.len() == 16);
        let mut out = String::new();
        let mut i: usize = 0;
        while i < self.bytes.len()
            invariant
                i <= self@.len(),
                digits@ == hex_digits(),
                digits@.len() == 16,
                out@ =~= hex_of(self@.subrange(0, i as int)),
            decreases self@.len() - i,
        {
            let b = self.bytes[i];
            let hi = (b / 16) as usize;
            let lo = (b % 16) as usize;
            out.append(digits.substring_char(hi, hi + 1));
            out.append(digits.substring_char(lo, lo + 1));
            i = i + 1;
            assert(out@ =~= hex_of(self@.subrange(0, i as int)));
        }
        assert(self@.subrange(0, self@.len() as int) =~= self@);
        out
    }
}

} // verus!
