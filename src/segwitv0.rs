//! The segwit v0 descriptors: `wsh` over a script policy, and `wpkh` over one key.
use vstd::prelude::*;
use crate::error::Error;
use crate::key::{hex_of, p2pkh_script, p2wpkh_address, p2wpkh_address_of, p2wpkh_script, pubkey_hash, pubkey_hash_of, wpubkey_hash_of, PublicKey};
use crate::policy::{uncompressed_text, all_compressed, all_valid, key_seqs, vec_views, Miniscript, Satisfier, SortedMultiVec, MAX_SIG_PUSH};
use crate::script::{p2wsh_address, p2wsh_address_of, p2wsh_script, varint_len, varint_len_spec, wscript_hash_of};

verus! {

/// What a `wsh` descriptor commits to.
#[derive(Clone, Debug, PartialEq, Eq)]
pub enum WshInner {
    /// `sortedmulti(k, keys...)`
    SortedMulti(SortedMultiVec),
    /// Any other script policy.
    Ms(Miniscript),
}

impl WshInner {
    pub open spec fn valid(&self) -> bool {
        match self {
            WshInner::SortedMulti(smv) => smv.valid(),
            WshInner::Ms(ms) => ms.valid(),
        }
    }

    pub open spec fn keys(&self) -> Seq<Seq<u8>> {
        match self {
            WshInner::SortedMulti(smv) => key_seqs(smv.pks@),
            WshInner::Ms(ms) => ms.key_list(),
        }
    }

    pub open spec fn spec_script(&self) -> Seq<u8> {
        match self {
            WshInner::SortedMulti(smv) => smv.spec_encode(),
            WshInner::Ms(ms) => ms.spec_encode(),
        }
    }

    pub open spec fn spec_max_elems(&self) -> nat {
        match self {
            WshInner::SortedMulti(smv) => (smv.k + 1) as nat,
            WshInner::Ms(ms) => ms.spec_max_elems(),
        }
    }

    pub open spec fn spec_max_size(&self) -> nat {
        match self {
            WshInner::SortedMulti(smv) => (1 + MAX_SIG_PUSH * smv.k) as nat,
            WshInner::Ms(ms) => ms.spec_max_size(),
        }
    }

    /// The witness elements before the script.
    pub open spec fn spec_satisfy<S: Satisfier>(&self, sat: &S) -> Option<Seq<Seq<u8>>> {
        match self {
            WshInner::SortedMulti(smv) => smv.spec_satisfy(sat),
            WshInner::Ms(ms) => ms.spec_satisfy(sat),
        }
    }
}

/// A pay-to-witness-script-hash descriptor.
#[derive(Clone, Debug, PartialEq, Eq)]
pub struct Wsh {
    inner: WshInner,
}

/// The weight bound of a `wsh` satisfaction: scriptSig length byte, the script
/// with its length prefix, the element count prefix, and the elements.
pub open spec fn wsh_weight(script_size: nat, elems: nat, size: nat) -> nat {
    4 + varint_len_spec(script_size) + script_size + varint_len_spec(elems) + size
}

impl Wsh {
    pub closed spec fn inner_spec(&self) -> WshInner {
        self.inner
    }

    pub open spec fn wf(&self) -> bool {
        self.inner_spec().valid()
    }

    pub open spec fn spec_inner_script(&self) -> Seq<u8> {
        self.inner_spec().spec_script()
    }

    pub open spec fn spec_max_weight(&self) -> nat {
        wsh_weight(
            self.spec_inner_script().len(),
            self.inner_spec().spec_max_elems(),
            self.inner_spec().spec_max_size(),
        )
    }

    /// The full witness: the policy's elements, then the witness script.
    pub open spec fn spec_witness<S: Satisfier>(&self, sat: &S) -> Option<Seq<Seq<u8>>> {
        match self.inner_spec().spec_satisfy(sat) {
            Some(w) => Some(w.push(self.spec_inner_script())),
            None => None,
        }
    }

    pub fn into_inner(self) -> (r: WshInner)
        ensures
            r == self.inner_spec(),
    {
        self.inner
    }

    pub fn as_inner(&self) -> (r: &WshInner)
        ensures
            *r == self.inner_spec(),
    {
        &self.inner
    }

    /// A `wsh` descriptor over `ms`, once `ms` passes the top-level checks.
    pub fn new(ms: Miniscript) -> (r: Result<Wsh, Error>)
        requires
            ms.keys_wf(),
        ensures
            r is Ok == ms.valid(),
            r matches Ok(w) ==> w.wf() && w.inner_spec() == WshInner::Ms(ms),
            ms.multi_error() is Some ==> r == Err::<Wsh, Error>(ms.multi_error()->Some_0),
            r is Err && ms.multi_error() is None ==> (r matches Err(Error::CompressedOnly(t)) && t@
                == uncompressed_text(ms.key_list())),
    {
        ms.top_level_checks()?;
        Ok(Wsh { inner: WshInner::Ms(ms) })
    }

    /// A `wsh(sortedmulti(k, pks...))` descriptor.
    pub fn new_sortedmulti(k: usize, pks: Vec<PublicKey>) -> (r: Result<Wsh, Error>)
        requires
            crate::policy::all_valid(pks@),
        ensures
            r is Ok == (crate::policy::multi_error(k as nat, pks@.len()) is None && all_compressed(key_seqs(pks@))),
            crate::policy::multi_error(k as nat, pks@.len()) is Some ==> r == Err::<Wsh, Error>(
                crate::policy::multi_error(k as nat, pks@.len())->Some_0,
            ),
            r matches Ok(w) ==> w.wf() && w.inner_spec() == WshInner::SortedMulti(SortedMultiVec { k, pks }),
            r is Err && crate::policy::multi_error(k as nat, pks@.len()) is None ==> (r matches Err(
                Error::CompressedOnly(t),
            ) && t@ == uncompressed_text(key_seqs(pks@))),
    {
        let smv = SortedMultiVec::new(k, pks)?;
        Ok(Wsh { inner: WshInner::SortedMulti(smv) })
    }

    /// Rejects an uncompressed key anywhere in the descriptor.
    pub fn sanity_check(&self) -> (r: Result<(), Error>)
        ensures
            r is Ok == all_compressed(self.inner_spec().keys()),
            r matches Err(e) ==> (e matches Error::CompressedOnly(t) && t@ == uncompressed_text(
                self.inner_spec().keys(),
            )),
    {
        match &self.inner {
            WshInner::SortedMulti(smv) => smv.sanity_check(),
            WshInner::Ms(ms) => ms.sanity_check(),
        }
    }

    /// The witness script.
    pub fn inner_script(&self) -> (r: Vec<u8>)
        requires
            self.wf(),
        ensures
            r@ == self.spec_inner_script(),
            r@.len() <= 700,
    {
        match &self.inner {
            WshInner::SortedMulti(smv) => smv.encode(),
            WshInner::Ms(ms) => ms.encode(),
        }
    }

    /// The output script: `OP_0 <SHA-256 of the witness script>`.
    pub fn spk(&self) -> (r: Vec<u8>)
        requires
            self.wf(),
        ensures
            r@ == seq![0x00u8, 0x20u8] + wscript_hash_of(self.spec_inner_script()),
    {
        p2wsh_script(&self.inner_script())
    }

    pub fn script_pubkey(&self) -> (r: Vec<u8>)
        requires
            self.wf(),
        ensures
            r@ == seq![0x00u8, 0x20u8] + wscript_hash_of(self.spec_inner_script()),
    {
        self.spk()
    }

    /// The address of the output on `network`.
    pub fn address(&self, network: bitcoin::Network) -> (r: bitcoin::Address)
        requires
            self.wf(),
        ensures
            r == p2wsh_address_of(self.spec_inner_script(), network),
    {
        p2wsh_address(&self.inner_script(), network)
    }

    /// The script revealed when spending: the witness script itself.
    pub fn explicit_script(&self) -> (r: Result<Vec<u8>, Error>)
        requires
            self.wf(),
        ensures
            r matches Ok(s) && s@ == self.spec_inner_script(),
    {
        Ok(self.inner_script())
    }

    /// The script code signed under BIP143: the witness script verbatim.
    pub fn ecdsa_sighash_script_code(&self) -> (r: Vec<u8>)
        requires
            self.wf(),
        ensures
            r@ == self.spec_inner_script(),
    {
        self.inner_script()
    }

    pub fn script_code(&self) -> (r: Result<Vec<u8>, Error>)
        requires
            self.wf(),
        ensures
            r matches Ok(s) && s@ == self.spec_inner_script(),
    {
        Ok(self.ecdsa_sighash_script_code())
    }

    /// A segwit spend leaves the scriptSig empty.
    pub fn unsigned_script_sig(&self) -> (r: Vec<u8>)
        ensures
            r@.len() == 0,
    {
        Vec::new()
    }

    fn finish_witness(&self, w: Result<Vec<Vec<u8>>, Error>) -> (r: Result<(Vec<Vec<u8>>, Vec<u8>), Error>)
        requires
            self.wf(),
        ensures
            r is Ok == w is Ok,
            w matches Err(e) ==> r == Err::<(Vec<Vec<u8>>, Vec<u8>), Error>(e),
            w matches Ok(v) ==> (r matches Ok((wit, sig)) && vec_views(wit@) == vec_views(v@).push(
                self.spec_inner_script(),
            ) && sig@.len() == 0),
    {
        match w {
            Ok(v) => {
                let mut v = v;
                let ghost before = vec_views(v@);
                v.push(self.inner_script());
                assert(vec_views(v@) =~= before.push(self.spec_inner_script()));
                Ok((v, Vec::new()))
            },
            Err(e) => Err(e),
        }
    }

    /// The witness stack and scriptSig that spend this output, signatures from `sat`.
    pub fn get_satisfaction<S: Satisfier>(&self, sat: &S) -> (r: Result<(Vec<Vec<u8>>, Vec<u8>), Error>)
        requires
            self.wf(),
        ensures
            r is Ok == self.spec_witness(sat) is Some,
            r matches Ok((w, s)) ==> self.spec_witness(sat) == Some(vec_views(w@)) && s@.len() == 0,
            r is Err && self.inner_spec() is SortedMulti ==> r == Err::<(Vec<Vec<u8>>, Vec<u8>), Error>(
                Error::CouldNotSatisfy,
            ),
            r is Err && self.inner_spec() is Ms && self.inner_spec()->Ms_0 is Multi ==> r == Err::<
                (Vec<Vec<u8>>, Vec<u8>),
                Error,
            >(Error::CouldNotSatisfy),
            r is Err && self.inner_spec() is Ms && self.inner_spec()->Ms_0 is Pk ==> (r matches Err(
                Error::MissingSig(k),
            ) && k@ == self.inner_spec()->Ms_0->Pk_0@),
    {
        let w = match &self.inner {
            WshInner::SortedMulti(smv) => smv.satisfy(sat),
            WshInner::Ms(ms) => ms.satisfy(sat),
        };
        self.finish_witness(w)
    }

    /// As `get_satisfaction`, through the policy's malleable satisfaction.
    pub fn get_satisfaction_mall<S: Satisfier>(&self, sat: &S) -> (r: Result<(Vec<Vec<u8>>, Vec<u8>), Error>)
        requires
            self.wf(),
        ensures
            r is Ok == self.spec_witness(sat) is Some,
            r matches Ok((w, s)) ==> self.spec_witness(sat) == Some(vec_views(w@)) && s@.len() == 0,
            r is Err && self.inner_spec() is SortedMulti ==> r == Err::<(Vec<Vec<u8>>, Vec<u8>), Error>(
                Error::CouldNotSatisfy,
            ),
            r is Err && self.inner_spec() is Ms && self.inner_spec()->Ms_0 is Multi ==> r == Err::<
                (Vec<Vec<u8>>, Vec<u8>),
                Error,
            >(Error::CouldNotSatisfy),
            r is Err && self.inner_spec() is Ms && self.inner_spec()->Ms_0 is Pk ==> (r matches Err(
                Error::MissingSig(k),
            ) && k@ == self.inner_spec()->Ms_0->Pk_0@),
    {
        let w = match &self.inner {
            WshInner::SortedMulti(smv) => smv.satisfy(sat),
            WshInner::Ms(ms) => ms.satisfy_malleable(sat),
        };
        self.finish_witness(w)
    }

    /// Upper bound on the weight a satisfaction adds to a transaction input.
    pub fn max_satisfaction_weight(&self) -> (r: Result<usize, Error>)
        requires
            self.wf(),
        ensures
            r matches Ok(n) && n == self.spec_max_weight(),
    {
        let (script_size, max_sat_elems, max_sat_size) = match &self.inner {
            WshInner::SortedMulti(smv) => (
                smv.script_size(),
                smv.max_satisfaction_witness_elements(),
                smv.max_satisfaction_size(),
            ),
            WshInner::Ms(ms) => (
                ms.script_size(),
                ms.max_satisfaction_witness_elements(),
                ms.max_satisfaction_size(),
            ),
        };
        Ok(4 + varint_len(script_size) + script_size + varint_len(max_sat_elems) + max_sat_size)
    }
}

/// A pay-to-witness-public-key-hash descriptor; its key is always compressed.
#[derive(Clone, Debug, PartialEq, Eq)]
pub struct Wpkh {
    pk: PublicKey,
}

/// `OP_DUP OP_HASH160 <pubkey hash> OP_EQUALVERIFY OP_CHECKSIG`
pub open spec fn p2pkh_spec(key: Seq<u8>) -> Seq<u8> {
    seq![0x76u8, 0xa9u8, 0x14u8] + pubkey_hash_of(key) + seq![0x88u8, 0xacu8]
}

/// `OP_0 <20-byte key hash>`
pub open spec fn p2wpkh_spec(key: Seq<u8>) -> Seq<u8> {
    seq![0x00u8, 0x14u8] + wpubkey_hash_of(key)
}

impl Wpkh {
    pub closed spec fn key_spec(&self) -> PublicKey {
        self.pk
    }

    pub open spec fn wf(&self) -> bool {
        self.key_spec().wf() && self.key_spec()@.len() == 33
    }

    /// The witness: the signature for the key, then the key.
    pub open spec fn spec_witness<S: Satisfier>(&self, sat: &S) -> Option<Seq<Seq<u8>>> {
        match sat.sig_of(self.key_spec()@) {
            Some(s) => Some(seq![s, self.key_spec()@]),
            None => None,
        }
    }

    pub open spec fn spec_max_weight(&self) -> nat {
        (4 + 1 + MAX_SIG_PUSH + 1 + self.key_spec()@.len()) as nat
    }

    /// A `wpkh` descriptor over `pk`, which must be compressed.
    pub fn new(pk: PublicKey) -> (r: Result<Wpkh, Error>)
        requires
            pk.wf(),
        ensures
            r is Ok == !pk.spec_is_uncompressed(),
            r matches Ok(w) ==> w.wf() && w.key_spec() == pk,
            r matches Err(e) ==> (e matches Error::CompressedOnly(t) && t@ == hex_of(pk@)),
    {
        if pk.is_uncompressed() {
            Err(Error::CompressedOnly(pk.to_string()))
        } else {
            Ok(Wpkh { pk })
        }
    }

    pub fn into_inner(self) -> (r: PublicKey)
        ensures
            r == self.key_spec(),
    {
        self.pk
    }

    pub fn as_inner(&self) -> (r: &PublicKey)
        ensures
            *r == self.key_spec(),
    {
        &self.pk
    }

    /// Rejects an uncompressed key.
    pub fn sanity_check(&self) -> (r: Result<(), Error>)
        ensures
            r is Ok == (self.key_spec()@.len() != 65),
            r matches Err(e) ==> (e matches Error::CompressedOnly(t) && t@ == hex_of(self.key_spec()@)),
    {
        if self.pk.is_uncompressed() {
            Err(Error::CompressedOnly(self.pk.to_string()))
        } else {
            Ok(())
        }
    }

    /// The output script: `OP_0 <HASH160 of the key>`.
    pub fn spk(&self) -> (r: Vec<u8>)
        requires
            self.wf(),
        ensures
            r@ == p2wpkh_spec(self.key_spec()@),
            r@.len() == 22,
    {
        p2wpkh_script(&self.pk.bytes)
    }

    pub fn script_pubkey(&self) -> (r: Vec<u8>)
        requires
            self.wf(),
        ensures
            r@ == p2wpkh_spec(self.key_spec()@),
            r@.len() == 22,
    {
        self.spk()
    }

    /// The address of the output on `network`.
    pub fn address(&self, network: bitcoin::Network) -> (r: bitcoin::Address)
        requires
            self.wf(),
        ensures
            r == p2wpkh_address_of(self.key_spec()@, network),
    {
        p2wpkh_address(&self.pk.bytes, network)
    }

    /// The program itself: a `wpkh` output has no separate script.
    pub fn inner_script(&self) -> (r: Vec<u8>)
        requires
            self.wf(),
        ensures
            r@ == p2wpkh_spec(self.key_spec()@),
    {
        self.spk()
    }

    pub fn explicit_script(&self) -> (r: Result<Vec<u8>, Error>)
        requires
            self.wf(),
        ensures
            r matches Ok(s) && s@ == p2wpkh_spec(self.key_spec()@),
    {
        Ok(self.inner_script())
    }

    /// The script code signed under BIP143: the legacy pay-to-pubkey-hash script
    /// of the key, not the witness program.
    pub fn ecdsa_sighash_script_code(&self) -> (r: Vec<u8>)
        requires
            self.wf(),
        ensures
            r@ == p2pkh_spec(self.key_spec()@),
            r@.len() == 25,
    {
        p2pkh_script(&self.pk.bytes)
    }

    pub fn script_code(&self) -> (r: Result<Vec<u8>, Error>)
        requires
            self.wf(),
        ensures
            r matches Ok(s) && s@ == p2pkh_spec(self.key_spec()@),
    {
        Ok(self.ecdsa_sighash_script_code())
    }

    /// A segwit spend leaves the scriptSig empty.
    pub fn unsigned_script_sig(&self) -> (r: Vec<u8>)
        ensures
            r@.len() == 0,
    {
        Vec::new()
    }

    /// `[signature, key]` and an empty scriptSig, or the key whose signature is missing.
    pub fn get_satisfaction<S: Satisfier>(&self, sat: &S) -> (r: Result<(Vec<Vec<u8>>, Vec<u8>), Error>)
        requires
            self.wf(),
        ensures
            r is Ok == self.spec_witness(sat) is Some,
            r matches Ok((w, s)) ==> self.spec_witness(sat) == Some(vec_views(w@)) && s@.len() == 0,
            r matches Err(e) ==> (e matches Error::MissingSig(k) && k@ == self.key_spec()@),
    {
        match sat.lookup_ecdsa_sig(&self.pk) {
            Some(sig) => {
                let mut w: Vec<Vec<u8>> = Vec::new();
                let ghost sv = sig@;
                w.push(sig);
                w.push(self.pk.to_bytes());
                assert(vec_views(w@) =~= seq![sv, self.key_spec()@]);
                Ok((w, Vec::new()))
            },
            None => Err(Error::MissingSig(self.pk.duplicate())),
        }
    }

    /// The same as `get_satisfaction`: a `wpkh` spend has no malleable variant.
    pub fn get_satisfaction_mall<S: Satisfier>(&self, sat: &S) -> (r: Result<(Vec<Vec<u8>>, Vec<u8>), Error>)
        requires
            self.wf(),
        ensures
            r is Ok == self.spec_witness(sat) is Some,
            r matches Ok((w, s)) ==> self.spec_witness(sat) == Some(vec_views(w@)) && s@.len() == 0,
            r matches Err(e) ==> (e matches Error::MissingSig(k) && k@ == self.key_spec()@),
    {
        self.get_satisfaction(sat)
    }

    /// Upper bound on the weight a satisfaction adds: scriptSig length byte, element
    /// count, a signature push, the key push.
    pub fn max_satisfaction_weight(&self) -> (r: Result<usize, Error>)
        requires
            self.wf(),
        ensures
            r matches Ok(n) && n == self.spec_max_weight(),
    {
        Ok(4 + 1 + MAX_SIG_PUSH + 1 + self.pk.bytes.len())
    }
}

fn all_keys_satisfy<F: Fn(&PublicKey) -> bool>(keys: &Vec<PublicKey>, pred: &F) -> (r: bool)
    requires
        forall|k: &PublicKey| #[trigger] pred.requires((k,)),
    ensures
        r ==> forall|i: int| 0 <= i < keys@.len() ==> pred.ensures((&keys@[i],), true),
        !r ==> exists|i: int| 0 <= i < keys@.len() && pred.ensures((&keys@[i],), false),
{
    let mut i: usize = 0;
    while i < keys.len()
        invariant
            i <= keys@.len(),
            forall|k: &PublicKey| #[trigger] pred.requires((k,)),
            forall|q: int| 0 <= q < i ==> pred.ensures((&keys@[q],), true),
        decreases keys@.len() - i,
    {
        if !pred(&keys[i]) {
            return false;
        }
        i = i + 1;
    }
    true
}

impl Wsh {
    /// The keys of the descriptor, in the order the policy lists them.
    pub open spec fn key_list(&self) -> Seq<PublicKey> {
        match self.inner_spec() {
            WshInner::SortedMulti(smv) => smv.pks@,
            WshInner::Ms(Miniscript::Multi(_, keys)) => keys@,
            WshInner::Ms(Miniscript::Pk(pk)) => seq![pk],
        }
    }

    /// Whether `pred` holds of every key; stops at the first key where it does not.
    pub fn for_each_key<F: Fn(&PublicKey) -> bool>(&self, pred: F) -> (r: bool)
        requires
            forall|k: &PublicKey| #[trigger] pred.requires((k,)),
        ensures
            r ==> forall|i: int| 0 <= i < self.key_list().len() ==> pred.ensures((&self.key_list()[i],), true),
            !r ==> exists|i: int| 0 <= i < self.key_list().len() && pred.ensures((&self.key_list()[i],), false),
    {
        match &self.inner {
            WshInner::SortedMulti(smv) => {
                assert(self.key_list() == smv.pks@);
                all_keys_satisfy(&smv.pks, &pred)
            },
            WshInner::Ms(Miniscript::Multi(_, keys)) => {
                assert(self.key_list() == keys@);
                all_keys_satisfy(keys, &pred)
            },
            WshInner::Ms(Miniscript::Pk(pk)) => {
                let r = pred(pk);
                assert(self.key_list()[0] == *pk);
                if !r {
                    assert(pred.ensures((&self.key_list()[0],), false));
                }
                r
            },
        }
    }
}

impl Wpkh {
    /// Calls `pred` on the key and returns its answer.
    pub fn for_each_key<F: Fn(&PublicKey) -> bool>(&self, pred: F) -> (r: bool)
        requires
            pred.requires((&self.key_spec(),)),
        ensures
            pred.ensures((&self.key_spec(),), r),
    {
        pred(&self.pk)
    }
}

/// The spending condition a descriptor stands for, with keys by their HASH160.
#[derive(Clone, Debug, PartialEq, Eq)]
pub enum Policy {
    /// A signature for the key with this hash.
    KeyHash(Vec<u8>),
    /// Signatures for `k` of the keys with these hashes.
    Threshold(usize, Vec<Vec<u8>>),
}

pub open spec fn key_hashes(keys: Seq<Seq<u8>>) -> Seq<Seq<u8>> {
    keys.map_values(|k: Seq<u8>| pubkey_hash_of(k))
}

fn hash_keys(keys: &Vec<PublicKey>) -> (r: Vec<Vec<u8>>)
    requires
        all_valid(keys@),
    ensures
        vec_views(r@) == key_hashes(key_seqs(keys@)),
{
    let mut out: Vec<Vec<u8>> = Vec::new();
    let mut i: usize = 0;
    while i < keys.len()
        invariant
            i <= keys@.len(),
            all_valid(keys@),
            out@.len() == i,
            vec_views(out@) =~= key_hashes(key_seqs(keys@)).take(i as int),
        decreases keys@.len() - i,
    {
        assert(keys@[i as int].wf());
        out.push(pubkey_hash(&keys[i].bytes));
        i = i + 1;
        assert(vec_views(out@) =~= key_hashes(key_seqs(keys@)).take(i as int));
    }
    assert(key_hashes(key_seqs(keys@)).take(i as int) =~= key_hashes(key_seqs(keys@)));
    out
}

impl Wsh {
    /// The policy: a key hash for `pk`, a threshold of key hashes for a multisig.
    pub fn lift(&self) -> (r: Result<Policy, Error>)
        requires
            self.wf(),
        ensures
            r is Ok,
            self.inner_spec() is Ms && self.inner_spec()->Ms_0 is Pk ==> (r matches Ok(Policy::KeyHash(h)) && h@
                == pubkey_hash_of(self.inner_spec()->Ms_0->Pk_0@)),
            self.inner_spec() is SortedMulti ==> (r matches Ok(Policy::Threshold(k, hs)) && k
                == self.inner_spec()->SortedMulti_0.k && vec_views(hs@) == key_hashes(self.inner_spec().keys())),
            self.inner_spec() is Ms && self.inner_spec()->Ms_0 is Multi ==> (r matches Ok(Policy::Threshold(k, hs))
                && k == self.inner_spec()->Ms_0->Multi_0 && vec_views(hs@) == key_hashes(self.inner_spec().keys())),
    {
        match &self.inner {
            WshInner::SortedMulti(smv) => Ok(Policy::Threshold(smv.k, hash_keys(&smv.pks))),
            WshInner::Ms(Miniscript::Multi(k, keys)) => Ok(Policy::Threshold(*k, hash_keys(keys))),
            WshInner::Ms(Miniscript::Pk(pk)) => Ok(Policy::KeyHash(pubkey_hash(&pk.bytes))),
        }
    }
}

impl Wpkh {
    /// The policy: a signature for the key with this hash.
    pub fn lift(&self) -> (r: Result<Policy, Error>)
        requires
            self.wf(),
        ensures
            r matches Ok(Policy::KeyHash(h)) && h@ == pubkey_hash_of(self.key_spec()@),
    {
        Ok(Policy::KeyHash(pubkey_hash(&self.pk.bytes)))
    }
}

/// The same kind of policy with the same threshold; the keys may differ.
pub open spec fn same_form(a: WshInner, b: WshInner) -> bool {
    match (a, b) {
        (WshInner::SortedMulti(x), WshInner::SortedMulti(y)) => x.k == y.k,
        (WshInner::Ms(Miniscript::Multi(k1, _)), WshInner::Ms(Miniscript::Multi(k2, _))) => k1 == k2,
        (WshInner::Ms(Miniscript::Pk(_)), WshInner::Ms(Miniscript::Pk(_))) => true,
        _ => false,
    }
}

/// `fpk` maps `k` to some key without failing.
pub open spec fn maps_ok<E, F: Fn(&PublicKey) -> Result<PublicKey, E>>(fpk: F, k: PublicKey) -> bool {
    exists|q: PublicKey| #[trigger] fpk.ensures((&k,), Ok::<PublicKey, E>(q))
}

/// A key map that only yields compressed, valid keys.
pub open spec fn keeps_compressed<E, F: Fn(&PublicKey) -> Result<PublicKey, E>>(fpk: F) -> bool {
    &&& forall|k: &PublicKey| #[trigger] fpk.requires((k,))
    &&& forall|k: &PublicKey, q: Result<PublicKey, E>| #[trigger]
        fpk.ensures((k,), q) ==> (q matches Ok(p) ==> p.wf() && p@.len() == 33)
}

fn translate_keys<E, F: Fn(&PublicKey) -> Result<PublicKey, E>>(keys: &Vec<PublicKey>, fpk: &F) -> (r: Result<
    Vec<PublicKey>,
    E,
>)
    requires
        keeps_compressed(*fpk),
    ensures
        r matches Ok(out) ==> out@.len() == keys@.len() && all_valid(out@) && all_compressed(key_seqs(out@))
            && forall|i: int| 0 <= i < keys@.len() ==> fpk.ensures((&keys@[i],), Ok::<PublicKey, E>(out@[i])),
        r matches Err(e) ==> exists|i: int|
            0 <= i < keys@.len() && fpk.ensures((&keys@[i],), Err::<PublicKey, E>(e)) && forall|j: int|
                0 <= j < i ==> maps_ok(*fpk, #[trigger] keys@[j]),
{
    let mut out: Vec<PublicKey> = Vec::new();
    let mut i: usize = 0;
    while i < keys.len()
        invariant
            i <= keys@.len(),
            keeps_compressed(*fpk),
            out@.len() == i,
            all_valid(out@),
            forall|q: int| 0 <= q < i ==> (#[trigger] out@[q])@.len() == 33,
            forall|q: int| 0 <= q < i ==> fpk.ensures((&keys@[q],), Ok::<PublicKey, E>(out@[q])),
        decreases keys@.len() - i,
    {
        let res = fpk(&keys[i]);
        match res {
            Ok(p) => {
                out.push(p);
            },
            Err(e) => {
                assert forall|j: int| 0 <= j < i implies maps_ok(*fpk, #[trigger] keys@[j]) by {
                    assert(fpk.ensures((&keys@[j],), Ok::<PublicKey, E>(out@[j])));
                }
                return Err(e);
            },
        }
        i = i + 1;
    }
    assert forall|q: int| 0 <= q < key_seqs(out@).len() implies (#[trigger] key_seqs(out@)[q]).len() == 33 by {
        assert(key_seqs(out@)[q] == out@[q]@);
    }
    Ok(out)
}

impl Wsh {
    /// The same descriptor with each key replaced through `fpk`; `fpkh`, the
    /// key-hash map, is never called, as these policies hold no key hashes.
    pub fn translate_pk<E, F: Fn(&PublicKey) -> Result<PublicKey, E>, G: Fn(&Vec<u8>) -> Result<Vec<u8>, E>>(
        &self,
        fpk: F,
        fpkh: G,
    ) -> (r: Result<Wsh, E>)
        requires
            self.wf(),
            keeps_compressed(fpk),
        ensures
            r matches Ok(w) ==> w.wf() && w.key_list().len() == self.key_list().len() && forall|i: int|
                0 <= i < self.key_list().len() ==> fpk.ensures((&self.key_list()[i],), Ok::<PublicKey, E>(w.key_list()[i])),
            r matches Ok(w) ==> same_form(w.inner_spec(), self.inner_spec()),
            r matches Err(e) ==> exists|i: int|
                0 <= i < self.key_list().len() && fpk.ensures((&self.key_list()[i],), Err::<PublicKey, E>(e))
                    && forall|j: int| 0 <= j < i ==> maps_ok(fpk, #[trigger] self.key_list()[j]),
    {
        match &self.inner {
            WshInner::SortedMulti(smv) => {
                assert(self.key_list() == smv.pks@);
                let pks = translate_keys(&smv.pks, &fpk)?;
                Ok(Wsh { inner: WshInner::SortedMulti(SortedMultiVec { k: smv.k, pks }) })
            },
            WshInner::Ms(Miniscript::Multi(k, keys)) => {
                assert(self.key_list() == keys@);
                let pks = translate_keys(keys, &fpk)?;
                Ok(Wsh { inner: WshInner::Ms(Miniscript::Multi(*k, pks)) })
            },
            WshInner::Ms(Miniscript::Pk(pk)) => {
                assert(self.key_list()[0] == *pk);
                let res = fpk(pk);
                match res {
                    Ok(q) => {
                        let w = Wsh { inner: WshInner::Ms(Miniscript::Pk(q)) };
                        assert(w.key_list()[0] == q);
                        Ok(w)
                    },
                    Err(e) => Err(e),
                }
            },
        }
    }
}

impl Wpkh {
    /// The same descriptor over `fpk`'s image of the key; `fpkh` is never called.
    pub fn translate_pk<E, F: Fn(&PublicKey) -> Result<PublicKey, E>, G: Fn(&Vec<u8>) -> Result<Vec<u8>, E>>(
        &self,
        fpk: F,
        fpkh: G,
    ) -> (r: Result<Wpkh, E>)
        requires
            keeps_compressed(fpk),
        ensures
            r matches Ok(w) ==> w.wf() && fpk.ensures((&self.key_spec(),), Ok::<PublicKey, E>(w.key_spec())),
            r matches Err(e) ==> fpk.ensures((&self.key_spec(),), Err::<PublicKey, E>(e)),
    {
        match fpk(&self.pk) {
            Ok(q) => Ok(Wpkh { pk: q }),
            Err(e) => Err(e),
        }
    }
}

} // verus!
