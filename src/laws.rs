//! Properties that hold across the descriptor operations.
use vstd::prelude::*;
use crate::policy::{available_sigs, lemma_sort_members, multi_witness, Miniscript, Satisfier, MAX_SIG_PUSH};
use crate::script::varint_len_spec;
use crate::segwitv0::{p2pkh_spec, p2wpkh_spec, Wpkh, Wsh, WshInner};

verus! {

/// Weight of an empty scriptSig: its one length byte, at four units per byte.
pub open spec fn empty_script_sig_weight() -> nat {
    4
}

/// Serialized size of witness elements: each with its length prefix.
pub open spec fn items_size(w: Seq<Seq<u8>>) -> nat
    decreases w.len(),
{
    if w.len() == 0 {
        0
    } else {
        items_size(w.drop_last()) + varint_len_spec(w.last().len()) + w.last().len()
    }
}

/// Serialized size of a witness stack: the element count, then the elements.
pub open spec fn witness_size(w: Seq<Seq<u8>>) -> nat {
    varint_len_spec(w.len()) + items_size(w)
}

/// Every signature the source holds is at most 72 bytes, sighash byte included.
pub open spec fn sigs_bounded<S: Satisfier>(sat: &S) -> bool {
    forall|k: Seq<u8>| #[trigger] sat.sig_of(k) matches Some(s) ==> s.len() <= 72
}

/// The script code of a `wpkh` output starts with `OP_DUP`, its program with
/// `OP_0`: signing the program instead of the legacy script is never the same.
pub proof fn lemma_wpkh_script_code_differs(key: Seq<u8>)
    ensures
        p2pkh_spec(key)[0] == 0x76,
        p2wpkh_spec(key)[0] == 0x00,
        p2pkh_spec(key) != p2wpkh_spec(key),
{
    assert(p2pkh_spec(key)[0] == 0x76);
    assert(p2wpkh_spec(key)[0] == 0x00);
}

proof fn lemma_available_bounded<S: Satisfier>(sat: &S, keys: Seq<Seq<u8>>)
    requires
        sigs_bounded(sat),
    ensures
        forall|i: int|
            0 <= i < available_sigs(sat, keys).len() ==> (#[trigger] available_sigs(sat, keys)[i]).len() <= 72,
        available_sigs(sat, keys).len() <= keys.len(),
    decreases keys.len(),
{
    if keys.len() > 0 {
        lemma_available_bounded(sat, keys.drop_last());
        let t = sat.sig_of(keys.last());
        assert(t matches Some(s) ==> s.len() <= 72);
    }
}

proof fn lemma_items_bounded(w: Seq<Seq<u8>>)
    requires
        forall|i: int| 0 <= i < w.len() ==> (#[trigger] w[i]).len() <= 72,
    ensures
        items_size(w) <= MAX_SIG_PUSH * w.len(),
    decreases w.len(),
{
    if w.len() > 0 {
        let t = w.drop_last();
        assert forall|i: int| 0 <= i < t.len() implies (#[trigger] t[i]).len() <= 72 by {
            assert(t[i] == w[i]);
        }
        lemma_items_bounded(t);
        assert(w.last() == w[w.len() - 1]);
        assert(MAX_SIG_PUSH * w.len() == MAX_SIG_PUSH * t.len() + MAX_SIG_PUSH) by (nonlinear_arith)
            requires
                t.len() + 1 == w.len(),
        ;
    }
}

proof fn lemma_items_cons_empty(t: Seq<Seq<u8>>)
    ensures
        items_size(seq![Seq::<u8>::empty()] + t) == 1 + items_size(t),
    decreases t.len(),
{
    if t.len() == 0 {
        assert(seq![Seq::<u8>::empty()] + t =~= seq![Seq::<u8>::empty()]);
        assert(seq![Seq::<u8>::empty()].drop_last() =~= Seq::<Seq<u8>>::empty());
        assert(items_size(Seq::<Seq<u8>>::empty()) == 0);
        assert(items_size(t) == 0);
    } else {
        lemma_items_cons_empty(t.drop_last());
        let c = seq![Seq::<u8>::empty()] + t;
        assert(c.drop_last() =~= seq![Seq::<u8>::empty()] + t.drop_last());
        assert(c.last() == t.last());
    }
}

/// A satisfaction of a `wpkh` output together with the empty scriptSig, never
/// weighs more than the bound `max_satisfaction_weight` gives, for signatures of at most 72 bytes.
pub proof fn lemma_wpkh_weight_bound<S: Satisfier>(d: Wpkh, sat: &S)
    requires
        d.wf(),
        sigs_bounded(sat),
    ensures
        d.spec_witness(sat) matches Some(w) ==> empty_script_sig_weight() + witness_size(w) <= d.spec_max_weight(),
{
    if let Some(s) = sat.sig_of(d.key_spec()@) {
        assert(sat.sig_of(d.key_spec()@) matches Some(s) ==> s.len() <= 72);
        let w = seq![s, d.key_spec()@];
        assert(w.drop_last() =~= seq![s]);
        assert(seq![s].drop_last() =~= Seq::<Seq<u8>>::empty());
        assert(items_size(Seq::<Seq<u8>>::empty()) == 0);
        assert(seq![s].last() == s);
        assert(items_size(seq![s]) == 1 + s.len());
        assert(items_size(w) == 1 + s.len() + 1 + 33);
        assert(witness_size(w) == 1 + items_size(w));
    }
}

/// A satisfaction of a `wsh` output together with the empty scriptSig, never
/// weighs more than the bound `max_satisfaction_weight` gives, for signatures of at most 72 bytes.
pub proof fn lemma_wsh_weight_bound<S: Satisfier>(d: Wsh, sat: &S)
    requires
        d.wf(),
        sigs_bounded(sat),
    ensures
        d.spec_witness(sat) matches Some(w) ==> empty_script_sig_weight() + witness_size(w) <= d.spec_max_weight(),
{
    let script = d.spec_inner_script();
    match d.inner_spec().spec_satisfy(sat) {
        None => {},
        Some(elems) => {
            let w = elems.push(script);
            assert(w.drop_last() =~= elems);
            assert(items_size(w) == items_size(elems) + varint_len_spec(script.len()) + script.len());
            let (k, keys) = match d.inner_spec() {
                WshInner::SortedMulti(smv) => (smv.k as nat, smv.sorted_keys()),
                WshInner::Ms(Miniscript::Multi(k, ks)) => (k as nat, crate::policy::key_seqs(ks@)),
                WshInner::Ms(Miniscript::Pk(pk)) => (0nat, seq![pk@]),
            };
            if d.inner_spec() is Ms && d.inner_spec()->Ms_0 is Pk {
                let pk = d.inner_spec()->Ms_0->Pk_0;
                let s = sat.sig_of(pk@)->Some_0;
                assert(sat.sig_of(pk@) matches Some(s) ==> s.len() <= 72);
                assert(elems == seq![s]);
                assert(seq![s].drop_last() =~= Seq::<Seq<u8>>::empty());
                assert(items_size(Seq::<Seq<u8>>::empty()) == 0);
                assert(seq![s].last() == s);
                assert(items_size(elems) == 1 + s.len());
                assert(w.len() == 2);
            } else {
                assert(elems == multi_witness(sat, k, keys)->Some_0);
                let sigs = available_sigs(sat, keys).take(k as int);
                lemma_available_bounded(sat, keys);
                assert forall|i: int| 0 <= i < sigs.len() implies (#[trigger] sigs[i]).len() <= 72 by {
                    assert(sigs[i] == available_sigs(sat, keys)[i]);
                }
                lemma_items_bounded(sigs);
                lemma_items_cons_empty(sigs);
                assert(elems == seq![Seq::<u8>::empty()] + sigs);
                assert(sigs.len() == k);
                assert(k <= 20);
                assert(w.len() == k + 2);
                assert(items_size(elems) <= 1 + MAX_SIG_PUSH * k);
            }
        },
    }
}

/// A well-formed `wpkh` descriptor never holds an uncompressed key.
pub proof fn lemma_wpkh_key_compressed(d: Wpkh)
    requires
        d.wf(),
    ensures
        !d.key_spec().spec_is_uncompressed(),
        d.key_spec()@.len() == 33,
{
}

/// A well-formed `wsh` descriptor holds compressed keys only, in every policy.
pub proof fn lemma_wsh_keys_compressed(d: Wsh)
    requires
        d.wf(),
    ensures
        crate::policy::all_compressed(d.inner_spec().keys()),
{
}

proof fn lemma_no_sigs<S: Satisfier>(sat: &S, keys: Seq<Seq<u8>>)
    requires
        forall|i: int| 0 <= i < keys.len() ==> sat.sig_of(#[trigger] keys[i]) is None,
    ensures
        available_sigs(sat, keys).len() == 0,
    decreases keys.len(),
{
    if keys.len() > 0 {
        let t = keys.drop_last();
        assert forall|i: int| 0 <= i < t.len() implies sat.sig_of(#[trigger] t[i]) is None by {
            assert(t[i] == keys[i]);
        }
        lemma_no_sigs(sat, t);
        assert(keys.last() == keys[keys.len() - 1]);
    }
}

/// A signature source with nothing for any of a descriptor's keys cannot satisfy it.
pub proof fn lemma_wsh_no_signatures<S: Satisfier>(d: Wsh, sat: &S)
    requires
        d.wf(),
        forall|i: int| 0 <= i < d.inner_spec().keys().len() ==> sat.sig_of(#[trigger] d.inner_spec().keys()[i]) is None,
    ensures
        d.spec_witness(sat) is None,
{
    match d.inner_spec() {
        WshInner::SortedMulti(smv) => {
            let ks = crate::policy::key_seqs(smv.pks@);
            lemma_sort_members(ks);
            assert forall|i: int| 0 <= i < smv.sorted_keys().len() implies sat.sig_of(
                #[trigger] smv.sorted_keys()[i],
            ) is None by {
                let j = choose|j: int| 0 <= j < ks.len() && ks[j] == smv.sorted_keys()[i];
                assert(sat.sig_of(d.inner_spec().keys()[j]) is None);
            }
            lemma_no_sigs(sat, smv.sorted_keys());
        },
        WshInner::Ms(Miniscript::Multi(k, keys)) => {
            lemma_no_sigs(sat, crate::policy::key_seqs(keys@));
        },
        WshInner::Ms(Miniscript::Pk(pk)) => {
            assert(sat.sig_of(d.inner_spec().keys()[0]) is None);
        },
    }
}

/// A signature source with nothing for the key cannot satisfy a `wpkh` descriptor.
pub proof fn lemma_wpkh_no_signature<S: Satisfier>(d: Wpkh, sat: &S)
    requires
        sat.sig_of(d.key_spec()@) is None,
    ensures
        d.spec_witness(sat) is None,
{
}

} // verus!
