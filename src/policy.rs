//! The script policies a `wsh` descriptor can hold: a single-key check, a
//! multisig, and a multisig whose keys are sorted; and the signature source
//! that satisfies them.
use vstd::prelude::*;
use crate::error::Error;
use crate::key::{hex_of, PublicKey};
use crate::script::{push_int_len, push_bytes, push_int, push_int_spec, push_spec, OP_CHECKMULTISIG, OP_CHECKSIG};

verus! {

/// Largest number of keys in a segwit v0 multisig.
pub const MAX_PUBKEYS_PER_MULTISIG: usize = 20;

/// Largest ECDSA signature with its sighash byte, plus its push prefix.
pub const MAX_SIG_PUSH: usize = 73;

pub open spec fn key_seqs(keys: Seq<PublicKey>) -> Seq<Seq<u8>> {
    keys.map_values(|k: PublicKey| k@)
}

pub open spec fn vec_views(w: Seq<Vec<u8>>) -> Seq<Seq<u8>> {
    w.map_values(|v: Vec<u8>| v@)
}

pub open spec fn all_compressed(keys: Seq<Seq<u8>>) -> bool {
    forall|i: int| 0 <= i < keys.len() ==> (#[trigger] keys[i]).len() == 33
}

pub open spec fn all_valid(keys: Seq<PublicKey>) -> bool {
    forall|i: int| 0 <= i < keys.len() ==> (#[trigger] keys[i]).wf()
}

/// Pushes of each key, in order.
pub open spec fn pushes_spec(keys: Seq<Seq<u8>>) -> Seq<u8>
    decreases keys.len(),
{
    if keys.len() == 0 {
        seq![]
    } else {
        pushes_spec(keys.drop_last()) + push_spec(keys.last())
    }
}

/// `<key> OP_CHECKSIG`
pub open spec fn pk_script_spec(key: Seq<u8>) -> Seq<u8> {
    push_spec(key) + seq![OP_CHECKSIG]
}

/// `<k> <key1> ... <keyn> <n> OP_CHECKMULTISIG`
pub open spec fn multi_script_spec(k: nat, keys: Seq<Seq<u8>>) -> Seq<u8> {
    push_int_spec(k) + pushes_spec(keys) + push_int_spec(keys.len()) + seq![OP_CHECKMULTISIG]
}

/// Threshold and key count allowed in a segwit v0 multisig.
pub open spec fn multi_ok(k: nat, n: nat) -> bool {
    1 <= k <= n <= MAX_PUBKEYS_PER_MULTISIG
}

/// Lexicographic order of byte strings, as std orders `Vec<u8>`.
pub open spec fn lex_le(a: Seq<u8>, b: Seq<u8>) -> bool
    decreases a.len(),
{
    if a.len() == 0 {
        true
    } else if b.len() == 0 {
        false
    } else if a[0] != b[0] {
        a[0] < b[0]
    } else {
        lex_le(a.drop_first(), b.drop_first())
    }
}

pub open spec fn lex_sorted(s: Seq<Seq<u8>>) -> bool {
    forall|i: int| 0 <= i < s.len() - 1 ==> lex_le(#[trigger] s[i], s[i + 1])
}

/// `x` placed before the first element of `s` that it does not exceed.
pub open spec fn insert_sorted(x: Seq<u8>, s: Seq<Seq<u8>>) -> Seq<Seq<u8>>
    decreases s.len(),
{
    if s.len() == 0 {
        seq![x]
    } else if lex_le(x, s[0]) {
        seq![x] + s
    } else {
        seq![s[0]] + insert_sorted(x, s.drop_first())
    }
}

/// Insertion sort of byte strings into lexicographic order.
pub open spec fn sort_spec(s: Seq<Seq<u8>>) -> Seq<Seq<u8>>
    decreases s.len(),
{
    if s.len() == 0 {
        seq![]
    } else {
        insert_sorted(s.last(), sort_spec(s.drop_last()))
    }
}

proof fn lemma_lex_total(a: Seq<u8>, b: Seq<u8>)
    ensures
        lex_le(a, b) || lex_le(b, a),
    decreases a.len(),
{
    if a.len() > 0 && b.len() > 0 && a[0] == b[0] {
        lemma_lex_total(a.drop_first(), b.drop_first());
    }
}

proof fn lemma_insert_head(x: Seq<u8>, s: Seq<Seq<u8>>)
    ensures
        insert_sorted(x, s).len() == s.len() + 1,
        insert_sorted(x, s)[0] == x || (s.len() > 0 && insert_sorted(x, s)[0] == s[0]),
    decreases s.len(),
{
    if s.len() > 0 && !lex_le(x, s[0]) {
        lemma_insert_head(x, s.drop_first());
    }
}

proof fn lemma_insert_sorted(x: Seq<u8>, s: Seq<Seq<u8>>)
    requires
        lex_sorted(s),
    ensures
        lex_sorted(insert_sorted(x, s)),
    decreases s.len(),
{
    if s.len() == 0 {
    } else if lex_le(x, s[0]) {
        let r = seq![x] + s;
        assert forall|i: int| 0 <= i < r.len() - 1 implies lex_le(#[trigger] r[i], r[i + 1]) by {
            if i > 0 {
                assert(r[i] == s[i - 1] && r[i + 1] == s[i]);
            }
        }
    } else {
        let t = s.drop_first();
        assert forall|i: int| 0 <= i < t.len() - 1 implies lex_le(#[trigger] t[i], t[i + 1]) by {
            assert(t[i] == s[i + 1] && t[i + 1] == s[i + 2]);
        }
        lemma_insert_sorted(x, t);
        lemma_insert_head(x, t);
        lemma_lex_total(x, s[0]);
        let u = insert_sorted(x, t);
        let r = seq![s[0]] + u;
        if t.len() > 0 {
            assert(lex_le(s[0], t[0]));
        }
        assert forall|i: int| 0 <= i < r.len() - 1 implies lex_le(#[trigger] r[i], r[i + 1]) by {
            if i > 0 {
                assert(r[i] == u[i - 1] && r[i + 1] == u[i]);
            }
        }
    }
}

/// The insertion sort leaves byte strings in lexicographic order.
pub proof fn lemma_sort_sorted(s: Seq<Seq<u8>>)
    ensures
        lex_sorted(sort_spec(s)),
    decreases s.len(),
{
    if s.len() > 0 {
        lemma_sort_sorted(s.drop_last());
        lemma_insert_sorted(s.last(), sort_spec(s.drop_last()));
    }
}

fn lex_le_exec(a: &Vec<u8>, b: &Vec<u8>) -> (r: bool)
    ensures
        r == lex_le(a@, b@),
{
    let mut i: usize = 0;
    assert(a@.skip(0) =~= a@);
    assert(b@.skip(0) =~= b@);
    while i < a.len()
        invariant
            i <= a@.len(),
            i <= b@.len(),
            lex_le(a@, b@) == lex_le(a@.skip(i as int), b@.skip(i as int)),
        decreases a@.len() - i,
    {
        if i >= b.len() {
            return false;
        }
        if a[i] != b[i] {
            return a[i] < b[i];
        }
        assert(a@.skip(i as int).drop_first() =~= a@.skip(i + 1));
        assert(b@.skip(i as int).drop_first() =~= b@.skip(i + 1));
        i = i + 1;
    }
    true
}

proof fn lemma_insert_at(x: Seq<u8>, s: Seq<Seq<u8>>, p: int)
    requires
        0 <= p <= s.len(),
        forall|q: int| 0 <= q < p ==> !lex_le(x, #[trigger] s[q]),
        p < s.len() ==> lex_le(x, s[p]),
    ensures
        insert_sorted(x, s) =~= s.take(p) + seq![x] + s.skip(p),
    decreases s.len(),
{
    if s.len() == 0 {
    } else if p == 0 {
        assert(s.skip(0) =~= s);
    } else {
        let t = s.drop_first();
        assert forall|q: int| 0 <= q < p - 1 implies !lex_le(x, #[trigger] t[q]) by {
            assert(t[q] == s[q + 1]);
        }
        lemma_insert_at(x, t, p - 1);
        assert(!lex_le(x, s[0]));
        assert(s.take(p) =~= seq![s[0]] + t.take(p - 1));
        assert(s.skip(p) =~= t.skip(p - 1));
    }
}

fn insert_sorted_exec(x: Vec<u8>, s: &mut Vec<Vec<u8>>)
    ensures
        vec_views(final(s)@) == insert_sorted(x@, vec_views(old(s)@)),
{
    let ghost sv = vec_views(s@);
    let mut p: usize = 0;
    let mut done = false;
    while !done && p < s.len()
        invariant
            p <= s@.len(),
            sv == vec_views(s@),
            forall|q: int| 0 <= q < p ==> !lex_le(x@, #[trigger] sv[q]),
            done ==> p < sv.len() && lex_le(x@, sv[p as int]),
        decreases s@.len() - p, if done { 0int } else { 1int },
    {
        if lex_le_exec(&x, &s[p]) {
            done = true;
        } else {
            p = p + 1;
        }
    }
    proof {
        lemma_insert_at(x@, sv, p as int);
    }
    s.insert(p, x);
    assert(vec_views(s@) =~= sv.take(p as int) + seq![x@] + sv.skip(p as int));
}

/// Sorts byte strings into lexicographic order.
fn sort_byte_strings(v: &Vec<Vec<u8>>) -> (r: Vec<Vec<u8>>)
    ensures
        vec_views(r@) == sort_spec(vec_views(v@)),
{
    let mut out: Vec<Vec<u8>> = Vec::new();
    let mut i: usize = 0;
    while i < v.len()
        invariant
            i <= v@.len(),
            vec_views(out@) == sort_spec(vec_views(v@).take(i as int)),
        decreases v@.len() - i,
    {
        assert(vec_views(v@).take(i + 1).drop_last() =~= vec_views(v@).take(i as int));
        insert_sorted_exec(copy_bytes(&v[i]), &mut out);
        i = i + 1;
    }
    assert(vec_views(v@).take(v@.len() as int) =~= vec_views(v@));
    out
}

/// A source of signatures, keyed by the public key's serialization.
pub trait Satisfier {
    spec fn sig_of(&self, key: Seq<u8>) -> Option<Seq<u8>>;

    fn lookup_ecdsa_sig(&self, key: &PublicKey) -> (r: Option<Vec<u8>>)
        ensures
            r matches Some(s) ==> self.sig_of(key@) == Some(s@),
            r is None ==> self.sig_of(key@) is None,
    ;
}

/// Signatures that `sat` holds for `keys`, in key order.
pub open spec fn available_sigs<S: Satisfier>(sat: &S, keys: Seq<Seq<u8>>) -> Seq<Seq<u8>>
    decreases keys.len(),
{
    if keys.len() == 0 {
        seq![]
    } else {
        let prev = available_sigs(sat, keys.drop_last());
        match sat.sig_of(keys.last()) {
            Some(s) => prev.push(s),
            None => prev,
        }
    }
}

/// The witness a `k`-of-n multisig gets: the dummy empty element, then the first
/// `k` signatures in key order; `None` where fewer than `k` are available.
pub open spec fn multi_witness<S: Satisfier>(sat: &S, k: nat, keys: Seq<Seq<u8>>) -> Option<Seq<Seq<u8>>> {
    let sigs = available_sigs(sat, keys);
    if sigs.len() >= k {
        Some(seq![Seq::<u8>::empty()] + sigs.take(k as int))
    } else {
        None
    }
}

proof fn lemma_available_prefix<S: Satisfier>(sat: &S, keys: Seq<Seq<u8>>, i: int)
    requires
        0 <= i <= keys.len(),
    ensures
        available_sigs(sat, keys.take(i)).len() <= available_sigs(sat, keys).len(),
        available_sigs(sat, keys.take(i)) =~= available_sigs(sat, keys).take(
            available_sigs(sat, keys.take(i)).len() as int,
        ),
    decreases keys.len(),
{
    if i == keys.len() {
        assert(keys.take(i) =~= keys);
    } else {
        assert(keys.drop_last().take(i) =~= keys.take(i));
        lemma_available_prefix(sat, keys.drop_last(), i);
    }
}

fn copy_bytes(v: &Vec<u8>) -> (r: Vec<u8>)
    ensures
        r@ == v@,
{
    let mut out: Vec<u8> = Vec::new();
    let mut i: usize = 0;
    while i < v.len()
        invariant
            i <= v@.len(),
            out@ =~= v@.subrange(0, i as int),
        decreases v@.len() - i,
    {
        out.push(v[i]);
        i = i + 1;
    }
    out
}

/// Satisfies a multisig over `keys` (in script order) from `sat`.
fn satisfy_multi<S: Satisfier>(k: usize, keys: &Vec<Vec<u8>>, sat: &S) -> (r: Option<Vec<Vec<u8>>>)
    ensures
        r is Some == multi_witness(sat, k as nat, vec_views(keys@)) is Some,
        r matches Some(w) ==> multi_witness(sat, k as nat, vec_views(keys@)) == Some(vec_views(w@)),
{
    let ghost ks = vec_views(keys@);
    let mut sigs: Vec<Vec<u8>> = Vec::new();
    let mut i: usize = 0;
    while i < keys.len() && sigs.len() < k
        invariant
            i <= keys@.len(),
            ks == vec_views(keys@),
            sigs@.len() <= k,
            vec_views(sigs@) =~= available_sigs(sat, ks.take(i as int)),
        decreases keys@.len() - i,
    {
        let key = PublicKey { bytes: copy_bytes(&keys[i]) };
        let found = sat.lookup_ecdsa_sig(&key);
        assert(ks.take(i + 1).drop_last() =~= ks.take(i as int));
        assert(ks.take(i + 1).last() == key@);
        match found {
            Some(s) => {
                sigs.push(s);
            },
            None => {},
        }
        i = i + 1;
    }
    proof {
        lemma_available_prefix(sat, ks, i as int);
    }
    if sigs.len() < k {
        assert(i == keys@.len());
        assert(ks.take(i as int) =~= ks);
        return None;
    }
    let mut w: Vec<Vec<u8>> = Vec::new();
    w.push(Vec::new());
    let mut j: usize = 0;
    while j < sigs.len()
        invariant
            j <= sigs@.len(),
            w@.len() == j + 1,
            w@[0]@ == Seq::<u8>::empty(),
            forall|q: int| 0 <= q < j ==> (#[trigger] w@[q + 1])@ == sigs@[q]@,
        decreases sigs@.len() - j,
    {
        w.push(copy_bytes(&sigs[j]));
        j = j + 1;
    }
    let ghost want = seq![Seq::<u8>::empty()] + available_sigs(sat, ks).take(k as int);
    assert(vec_views(sigs@) =~= available_sigs(sat, ks).take(k as int));
    assert forall|q: int| 0 <= q < want.len() implies vec_views(w@)[q] == want[q] by {
        if q > 0 {
            assert(w@[(q - 1) + 1]@ == sigs@[q - 1]@);
            assert(vec_views(sigs@)[q - 1] == sigs@[q - 1]@);
        }
    }
    assert(vec_views(w@) =~= want);
    Some(w)
}

/// A script policy for a segwit v0 witness script.
#[derive(Clone, Debug, PartialEq, Eq)]
pub enum Miniscript {
    /// `pk(key)`: a signature for `key`.
    Pk(PublicKey),
    /// `multi(k, keys...)`: signatures for `k` of the keys, in key order.
    Multi(usize, Vec<PublicKey>),
}

impl Miniscript {
    /// Every key is a valid key serialization.
    pub open spec fn keys_wf(&self) -> bool {
        match self {
            Miniscript::Pk(pk) => pk.wf(),
            Miniscript::Multi(_, keys) => all_valid(keys@),
        }
    }

    pub open spec fn key_list(&self) -> Seq<Seq<u8>> {
        match self {
            Miniscript::Pk(pk) => seq![pk@],
            Miniscript::Multi(_, keys) => key_seqs(keys@),
        }
    }

    /// The threshold check a multisig fails, if any.
    pub open spec fn multi_error(&self) -> Option<Error> {
        match self {
            Miniscript::Pk(_) => None,
            Miniscript::Multi(k, keys) => multi_error(*k as nat, keys@.len()),
        }
    }

    /// Passes the checks for a top-level segwit v0 witness script.
    pub open spec fn valid(&self) -> bool {
        &&& self.keys_wf()
        &&& all_compressed(self.key_list())
        &&& match self {
            Miniscript::Pk(_) => true,
            Miniscript::Multi(k, keys) => multi_ok(*k as nat, keys@.len()),
        }
    }

    pub open spec fn spec_encode(&self) -> Seq<u8> {
        match self {
            Miniscript::Pk(pk) => pk_script_spec(pk@),
            Miniscript::Multi(k, keys) => multi_script_spec(*k as nat, key_seqs(keys@)),
        }
    }

    pub open spec fn spec_max_elems(&self) -> nat {
        match self {
            Miniscript::Pk(_) => 1,
            Miniscript::Multi(k, _) => (*k + 1) as nat,
        }
    }

    pub open spec fn spec_max_size(&self) -> nat {
        match self {
            Miniscript::Pk(_) => MAX_SIG_PUSH as nat,
            Miniscript::Multi(k, _) => (1 + MAX_SIG_PUSH * *k) as nat,
        }
    }

    /// The witness (without the script) that satisfies this policy from `sat`.
    pub open spec fn spec_satisfy<S: Satisfier>(&self, sat: &S) -> Option<Seq<Seq<u8>>> {
        match self {
            Miniscript::Pk(pk) => match sat.sig_of(pk@) {
                Some(s) => Some(seq![s]),
                None => None,
            },
            Miniscript::Multi(k, keys) => multi_witness(sat, *k as nat, key_seqs(keys@)),
        }
    }
}

proof fn lemma_pushes_len(keys: Seq<Seq<u8>>)
    requires
        all_compressed(keys),
    ensures
        pushes_spec(keys).len() == 34 * keys.len(),
    decreases keys.len(),
{
    if keys.len() > 0 {
        let t = keys.drop_last();
        assert forall|i: int| 0 <= i < t.len() implies (#[trigger] t[i]).len() == 33 by {
            assert(t[i] == keys[i]);
        }
        lemma_pushes_len(t);
        assert(keys.last() == keys[keys.len() - 1]);
    }
}

proof fn lemma_insert_compressed(x: Seq<u8>, s: Seq<Seq<u8>>)
    requires
        all_compressed(s),
        x.len() == 33,
    ensures
        all_compressed(insert_sorted(x, s)),
        insert_sorted(x, s).len() == s.len() + 1,
    decreases s.len(),
{
    if s.len() > 0 && !lex_le(x, s[0]) {
        let t = s.drop_first();
        assert forall|i: int| 0 <= i < t.len() implies (#[trigger] t[i]).len() == 33 by {
            assert(t[i] == s[i + 1]);
        }
        lemma_insert_compressed(x, t);
        let r = insert_sorted(x, s);
        assert forall|i: int| 0 <= i < r.len() implies (#[trigger] r[i]).len() == 33 by {
            if i > 0 {
                assert(r[i] == insert_sorted(x, t)[i - 1]);
            }
        }
    }
}

/// Sorting keeps the number of keys, and keeps them all compressed.
proof fn lemma_sort_compressed(s: Seq<Seq<u8>>)
    requires
        all_compressed(s),
    ensures
        all_compressed(sort_spec(s)),
        sort_spec(s).len() == s.len(),
    decreases s.len(),
{
    if s.len() > 0 {
        let t = s.drop_last();
        assert forall|i: int| 0 <= i < t.len() implies (#[trigger] t[i]).len() == 33 by {
            assert(t[i] == s[i]);
        }
        lemma_sort_compressed(t);
        assert(s.last() == s[s.len() - 1]);
        lemma_insert_compressed(s.last(), sort_spec(t));
    }
}

fn key_bytes_vec(keys: &Vec<PublicKey>) -> (r: Vec<Vec<u8>>)
    ensures
        vec_views(r@) == key_seqs(keys@),
        r@.len() == keys@.len(),
{
    let mut out: Vec<Vec<u8>> = Vec::new();
    let mut i: usize = 0;
    while i < keys.len()
        invariant
            i <= keys@.len(),
            out@.len() == i,
            vec_views(out@) =~= key_seqs(keys@).take(i as int),
        decreases keys@.len() - i,
    {
        out.push(keys[i].to_bytes());
        i = i + 1;
        assert(vec_views(out@) =~= key_seqs(keys@).take(i as int));
    }
    assert(key_seqs(keys@).take(i as int) =~= key_seqs(keys@));
    out
}

fn encode_multi(k: usize, keys: &Vec<Vec<u8>>) -> (r: Vec<u8>)
    requires
        multi_ok(k as nat, keys@.len()),
        all_compressed(vec_views(keys@)),
    ensures
        r@ == multi_script_spec(k as nat, vec_views(keys@)),
        r@.len() == push_int_len(k as nat) + 34 * keys@.len() + push_int_len(keys@.len()) + 1,
{
    let ghost ks = vec_views(keys@);
    let mut out: Vec<u8> = Vec::new();
    push_int(&mut out, k);
    let mut i: usize = 0;
    while i < keys.len()
        invariant
            i <= keys@.len(),
            ks == vec_views(keys@),
            all_compressed(ks),
            out@ =~= push_int_spec(k as nat) + pushes_spec(ks.take(i as int)),
        decreases keys@.len() - i,
    {
        assert(ks[i as int].len() == 33);
        assert(ks.take(i + 1).drop_last() =~= ks.take(i as int));
        push_bytes(&mut out, &keys[i]);
        i = i + 1;
    }
    assert(ks.take(keys@.len() as int) =~= ks);
    push_int(&mut out, keys.len());
    out.push(OP_CHECKMULTISIG);
    proof {
        lemma_pushes_len(ks);
    }
    out
}

/// Witness size bound of a multisig: the empty element and `k` signature pushes.
fn multi_max_size(k: usize) -> (r: usize)
    requires
        k <= MAX_PUBKEYS_PER_MULTISIG,
    ensures
        r == 1 + MAX_SIG_PUSH * k,
{
    1 + MAX_SIG_PUSH * k
}

/// Index of the first key from `i` on that is not compressed; the length if none.
pub open spec fn first_bad(keys: Seq<Seq<u8>>, i: int) -> int
    decreases keys.len() - i,
{
    if i < 0 || i >= keys.len() {
        keys.len() as int
    } else if keys[i].len() != 33 {
        i
    } else {
        first_bad(keys, i + 1)
    }
}

/// The text a compressed-only error carries: the hex of the first uncompressed key.
pub open spec fn uncompressed_text(keys: Seq<Seq<u8>>) -> Seq<char> {
    hex_of(keys[first_bad(keys, 0)])
}

/// The first key of `keys` that is not compressed, if any.
fn find_uncompressed(keys: &Vec<Vec<u8>>) -> (r: Option<usize>)
    ensures
        r is None == all_compressed(vec_views(keys@)),
        r matches Some(i) ==> i < keys@.len() && keys@[i as int]@.len() != 33 && i == first_bad(
            vec_views(keys@),
            0,
        ),
{
    let mut i: usize = 0;
    while i < keys.len()
        invariant
            i <= keys@.len(),
            forall|q: int| 0 <= q < i ==> (#[trigger] keys@[q])@.len() == 33,
            first_bad(vec_views(keys@), 0) == first_bad(vec_views(keys@), i as int),
        decreases keys@.len() - i,
    {
        assert(vec_views(keys@)[i as int] == keys@[i as int]@);
        if keys[i].len() != 33 {
            return Some(i);
        }
        i = i + 1;
    }
    assert forall|q: int| 0 <= q < keys@.len() implies (#[trigger] vec_views(keys@)[q]).len() == 33 by {
        assert(vec_views(keys@)[q] == keys@[q]@);
    }
    None
}

/// Rejects the first uncompressed key of `keys` with its text.
fn check_compressed(keys: &Vec<PublicKey>) -> (r: Result<(), Error>)
    ensures
        r matches Err(e) ==> e is CompressedOnly,
        r is Ok == all_compressed(key_seqs(keys@)),
        r matches Err(e) ==> (e matches Error::CompressedOnly(t) && t@ == uncompressed_text(key_seqs(keys@))),
{
    let kb = key_bytes_vec(keys);
    match find_uncompressed(&kb) {
        None => Ok(()),
        Some(i) => {
            assert(vec_views(kb@)[i as int] == kb@[i as int]@);
            assert(vec_views(kb@) == key_seqs(keys@));
            let t = keys[i].to_string();
            Err(Error::CompressedOnly(t))
        },
    }
}

impl Miniscript {
    /// The witness script.
    pub fn encode(&self) -> (r: Vec<u8>)
        requires
            self.valid(),
        ensures
            r@ == self.spec_encode(),
            r@.len() <= 700,
    {
        match self {
            Miniscript::Pk(pk) => {
                let mut out: Vec<u8> = Vec::new();
                push_bytes(&mut out, &pk.bytes);
                out.push(OP_CHECKSIG);
                out
            },
            Miniscript::Multi(k, keys) => {
                let kb = key_bytes_vec(keys);
                encode_multi(*k, &kb)
            },
        }
    }

    /// Length of the witness script.
    pub fn script_size(&self) -> (r: usize)
        requires
            self.valid(),
        ensures
            r == self.spec_encode().len(),
            r <= 700,
    {
        self.encode().len()
    }

    /// Most witness elements a satisfaction uses, the script excluded.
    pub fn max_satisfaction_witness_elements(&self) -> (r: usize)
        requires
            self.valid(),
        ensures
            r == self.spec_max_elems(),
    {
        match self {
            Miniscript::Pk(_) => 1,
            Miniscript::Multi(k, _) => *k + 1,
        }
    }

    /// Most bytes a satisfaction's elements take, length prefixes included.
    pub fn max_satisfaction_size(&self) -> (r: usize)
        requires
            self.valid(),
        ensures
            r == self.spec_max_size(),
    {
        match self {
            Miniscript::Pk(_) => MAX_SIG_PUSH,
            Miniscript::Multi(k, _) => multi_max_size(*k),
        }
    }

    /// The witness elements (the script excluded) that satisfy this policy from `sat`.
    pub fn satisfy<S: Satisfier>(&self, sat: &S) -> (r: Result<Vec<Vec<u8>>, Error>)
        requires
            self.valid(),
        ensures
            r is Ok == self.spec_satisfy(sat) is Some,
            r matches Ok(w) ==> self.spec_satisfy(sat) == Some(vec_views(w@)),
            r is Err && self is Pk ==> (r matches Err(Error::MissingSig(k)) && k@ == self->Pk_0@),
            r is Err && self is Multi ==> r == Err::<Vec<Vec<u8>>, Error>(Error::CouldNotSatisfy),
    {
        match self {
            Miniscript::Pk(pk) => match sat.lookup_ecdsa_sig(pk) {
                Some(s) => {
                    let mut w: Vec<Vec<u8>> = Vec::new();
                    w.push(s);
                    assert(vec_views(w@) =~= seq![s@]);
                    Ok(w)
                },
                None => Err(Error::MissingSig(pk.duplicate())),
            },
            Miniscript::Multi(k, keys) => {
                let kb = key_bytes_vec(keys);
                match satisfy_multi(*k, &kb, sat) {
                    Some(w) => Ok(w),
                    None => Err(Error::CouldNotSatisfy),
                }
            },
        }
    }

    /// The malleable satisfaction; for these policies it is the same witness.
    pub fn satisfy_malleable<S: Satisfier>(&self, sat: &S) -> (r: Result<Vec<Vec<u8>>, Error>)
        requires
            self.valid(),
        ensures
            r is Ok == self.spec_satisfy(sat) is Some,
            r matches Ok(w) ==> self.spec_satisfy(sat) == Some(vec_views(w@)),
            r is Err && self is Pk ==> (r matches Err(Error::MissingSig(k)) && k@ == self->Pk_0@),
            r is Err && self is Multi ==> r == Err::<Vec<Vec<u8>>, Error>(Error::CouldNotSatisfy),
    {
        self.satisfy(sat)
    }
}

/// The error a multisig's threshold `k` over `n` keys gets, if any.
pub open spec fn multi_error(k: nat, n: nat) -> Option<Error> {
    if n > MAX_PUBKEYS_PER_MULTISIG {
        Some(Error::TooManyPubkeys)
    } else if k == 0 || k > n {
        Some(Error::BadThreshold)
    } else {
        None
    }
}

fn check_multi(k: usize, n: usize) -> (r: Result<(), Error>)
    ensures
        r is Ok == multi_error(k as nat, n as nat) is None,
        r matches Err(e) ==> multi_error(k as nat, n as nat) == Some(e),
        r is Ok ==> multi_ok(k as nat, n as nat),
{
    if n > MAX_PUBKEYS_PER_MULTISIG {
        Err(Error::TooManyPubkeys)
    } else if k == 0 || k > n {
        Err(Error::BadThreshold)
    } else {
        Ok(())
    }
}

impl Miniscript {
    /// Rejects an uncompressed key anywhere in the policy.
    pub fn sanity_check(&self) -> (r: Result<(), Error>)
        ensures
            r is Ok == all_compressed(self.key_list()),
            r matches Err(e) ==> (e matches Error::CompressedOnly(t) && t@ == uncompressed_text(self.key_list())),
    {
        match self {
            Miniscript::Pk(pk) => {
                assert(self.key_list()[0] == pk@);
                assert(self.key_list().len() == 1);
                assert(first_bad(self.key_list(), 1) == 1);
                if pk.bytes.len() != 33 {
                    let t = pk.to_string();
                    Err(Error::CompressedOnly(t))
                } else {
                    Ok(())
                }
            },
            Miniscript::Multi(_, keys) => check_compressed(keys),
        }
    }

    /// The checks a policy passes before it becomes a segwit v0 witness script:
    /// multisig threshold and key count, then compressed keys only.
    pub fn top_level_checks(&self) -> (r: Result<(), Error>)
        requires
            self.keys_wf(),
        ensures
            r is Ok == self.valid(),
            self.multi_error() is Some ==> r == Err::<(), Error>(self.multi_error()->Some_0),
            r is Err && self.multi_error() is None ==> (r matches Err(Error::CompressedOnly(t)) && t@
                == uncompressed_text(self.key_list())),
    {
        match self {
            Miniscript::Pk(_) => {},
            Miniscript::Multi(k, keys) => {
                check_multi(*k, keys.len())?;
            },
        }
        self.sanity_check()
    }
}

/// A `k`-of-n multisig whose script lists the keys sorted by their serialization.
#[derive(Clone, Debug, PartialEq, Eq)]
pub struct SortedMultiVec {
    pub k: usize,
    pub pks: Vec<PublicKey>,
}

impl SortedMultiVec {
    pub open spec fn valid(&self) -> bool {
        &&& all_valid(self.pks@)
        &&& all_compressed(key_seqs(self.pks@))
        &&& multi_ok(self.k as nat, self.pks@.len())
    }

    pub open spec fn sorted_keys(&self) -> Seq<Seq<u8>> {
        sort_spec(key_seqs(self.pks@))
    }

    pub open spec fn spec_encode(&self) -> Seq<u8> {
        multi_script_spec(self.k as nat, self.sorted_keys())
    }

    pub open spec fn spec_satisfy<S: Satisfier>(&self, sat: &S) -> Option<Seq<Seq<u8>>> {
        multi_witness(sat, self.k as nat, self.sorted_keys())
    }

    /// A sorted multisig of `k` of the keys `pks`.
    pub fn new(k: usize, pks: Vec<PublicKey>) -> (r: Result<SortedMultiVec, Error>)
        requires
            all_valid(pks@),
        ensures
            r is Ok == (multi_error(k as nat, pks@.len()) is None && all_compressed(key_seqs(pks@))),
            multi_error(k as nat, pks@.len()) is Some ==> r == Err::<SortedMultiVec, Error>(
                multi_error(k as nat, pks@.len())->Some_0,
            ),
            r matches Ok(v) ==> v.valid() && v == (SortedMultiVec { k, pks }),
            r is Err && multi_error(k as nat, pks@.len()) is None ==> (r matches Err(Error::CompressedOnly(t)) && t@
                == uncompressed_text(key_seqs(pks@))),
    {
        check_multi(k, pks.len())?;
        check_compressed(&pks)?;
        Ok(SortedMultiVec { k, pks })
    }

    /// The witness script: `k`, the keys in sorted order, `n`, `OP_CHECKMULTISIG`.
    pub fn encode(&self) -> (r: Vec<u8>)
        requires
            self.valid(),
        ensures
            r@ == self.spec_encode(),
            r@.len() <= 700,
    {
        let kb = key_bytes_vec(&self.pks);
        let sorted = sort_byte_strings(&kb);
        proof {
            lemma_sort_compressed(key_seqs(self.pks@));
        }
        encode_multi(self.k, &sorted)
    }

    pub fn script_size(&self) -> (r: usize)
        requires
            self.valid(),
        ensures
            r == self.spec_encode().len(),
            r <= 700,
    {
        self.encode().len()
    }

    pub fn max_satisfaction_witness_elements(&self) -> (r: usize)
        requires
            self.valid(),
        ensures
            r == self.k + 1,
    {
        self.k + 1
    }

    pub fn max_satisfaction_size(&self) -> (r: usize)
        requires
            self.valid(),
        ensures
            r == 1 + MAX_SIG_PUSH * self.k,
    {
        multi_max_size(self.k)
    }

    /// The dummy element, then `k` signatures in the script's key order.
    pub fn satisfy<S: Satisfier>(&self, sat: &S) -> (r: Result<Vec<Vec<u8>>, Error>)
        requires
            self.valid(),
        ensures
            r is Ok == self.spec_satisfy(sat) is Some,
            r matches Ok(w) ==> self.spec_satisfy(sat) == Some(vec_views(w@)),
            r is Err ==> r == Err::<Vec<Vec<u8>>, Error>(Error::CouldNotSatisfy),
    {
        let kb = key_bytes_vec(&self.pks);
        let sorted = sort_byte_strings(&kb);
        match satisfy_multi(self.k, &sorted, sat) {
            Some(w) => Ok(w),
            None => Err(Error::CouldNotSatisfy),
        }
    }

    /// Rejects an uncompressed key.
    pub fn sanity_check(&self) -> (r: Result<(), Error>)
        ensures
            r is Ok == all_compressed(key_seqs(self.pks@)),
            r matches Err(e) ==> (e matches Error::CompressedOnly(t) && t@ == uncompressed_text(key_seqs(self.pks@))),
    {
        check_compressed(&self.pks)
    }
}

/// First signature listed for `key` in `entries`.
pub open spec fn sig_lookup(entries: Seq<(Vec<u8>, Vec<u8>)>, key: Seq<u8>) -> Option<Seq<u8>>
    decreases entries.len(),
{
    if entries.len() == 0 {
        None
    } else if entries[0].0@ == key {
        Some(entries[0].1@)
    } else {
        sig_lookup(entries.drop_first(), key)
    }
}

fn bytes_eq(a: &Vec<u8>, b: &Vec<u8>) -> (r: bool)
    ensures
        r == (a@ == b@),
{
    if a.len() != b.len() {
        return false;
    }
    let mut i: usize = 0;
    while i < a.len()
        invariant
            i <= a@.len(),
            a@.len() == b@.len(),
            a@.take(i as int) == b@.take(i as int),
        decreases a@.len() - i,
    {
        if a[i] != b[i] {
            return false;
        }
        assert(a@.take(i + 1) =~= a@.take(i as int).push(a@[i as int]));
        assert(b@.take(i + 1) =~= b@.take(i as int).push(b@[i as int]));
        i = i + 1;
    }
    assert(a@.take(i as int) =~= a@);
    assert(b@.take(i as int) =~= b@);
    true
}

/// Signatures listed by key serialization; the first entry for a key is the one used.
#[derive(Clone, Debug)]
pub struct SigMap {
    pub entries: Vec<(Vec<u8>, Vec<u8>)>,
}

impl SigMap {
    pub fn new() -> (r: SigMap)
        ensures
            r.entries@.len() == 0,
    {
        SigMap { entries: Vec::new() }
    }

    /// Lists `sig` for `key`, after any entry already listed.
    pub fn insert(&mut self, key: &PublicKey, sig: Vec<u8>)
        ensures
            final(self).entries@.len() == old(self).entries@.len() + 1,
            final(self).entries@.drop_last() == old(self).entries@,
            final(self).entries@.last().0@ == key@,
            final(self).entries@.last().1 == sig,
    {
        let kb = key.to_bytes();
        self.entries.push((kb, sig));
    }
}

impl Satisfier for SigMap {
    open spec fn sig_of(&self, key: Seq<u8>) -> Option<Seq<u8>> {
        sig_lookup(self.entries@, key)
    }

    fn lookup_ecdsa_sig(&self, key: &PublicKey) -> (r: Option<Vec<u8>>) {
        let kb = key.to_bytes();
        let mut i: usize = 0;
        assert(self.entries@.skip(0) =~= self.entries@);
        while i < self.entries.len()
            invariant
                i <= self.entries@.len(),
                kb@ == key@,
                sig_lookup(self.entries@, key@) == sig_lookup(self.entries@.skip(i as int), key@),
            decreases self.entries@.len() - i,
        {
            assert(self.entries@.skip(i as int).drop_first() =~= self.entries@.skip(i + 1));
            if bytes_eq(&self.entries[i].0, &kb) {
                return Some(copy_bytes(&self.entries[i].1));
            }
            i = i + 1;
        }
        None
    }
}

/// A sorted multisig lists its keys in its script in ascending order of their
/// serialization, whatever order they were given in.
pub proof fn lemma_sortedmulti_keys_ascending(smv: SortedMultiVec)
    ensures
        lex_sorted(smv.sorted_keys()),
{
    lemma_sort_sorted(key_seqs(smv.pks@));
}

proof fn lemma_insert_members(x: Seq<u8>, s: Seq<Seq<u8>>)
    ensures
        forall|i: int|
            0 <= i < insert_sorted(x, s).len() ==> #[trigger] insert_sorted(x, s)[i] == x || exists|j: int|
                0 <= j < s.len() && s[j] == insert_sorted(x, s)[i],
    decreases s.len(),
{
    lemma_insert_head(x, s);
    if s.len() > 0 && !lex_le(x, s[0]) {
        let t = s.drop_first();
        lemma_insert_members(x, t);
        let r = insert_sorted(x, s);
        assert forall|i: int| 0 <= i < r.len() implies #[trigger] r[i] == x || exists|j: int|
            0 <= j < s.len() && s[j] == r[i] by {
            if i == 0 {
                assert(s[0] == r[0]);
            } else {
                assert(r[i] == insert_sorted(x, t)[i - 1]);
                if r[i] != x {
                    let j = choose|j: int| 0 <= j < t.len() && t[j] == insert_sorted(x, t)[i - 1];
                    assert(s[j + 1] == r[i]);
                }
            }
        }
    } else if s.len() > 0 {
        let r = insert_sorted(x, s);
        assert forall|i: int| 0 <= i < r.len() implies #[trigger] r[i] == x || exists|j: int|
            0 <= j < s.len() && s[j] == r[i] by {
            if i > 0 {
                assert(s[i - 1] == r[i]);
            }
        }
    }
}

/// Every key of the sorted order is one of the given keys.
pub proof fn lemma_sort_members(s: Seq<Seq<u8>>)
    ensures
        forall|i: int|
            0 <= i < sort_spec(s).len() ==> exists|j: int| 0 <= j < s.len() && s[j] == #[trigger] sort_spec(s)[i],
    decreases s.len(),
{
    if s.len() > 0 {
        let t = s.drop_last();
        lemma_sort_members(t);
        lemma_insert_members(s.last(), sort_spec(t));
        assert forall|i: int| 0 <= i < sort_spec(s).len() implies exists|j: int|
            0 <= j < s.len() && s[j] == #[trigger] sort_spec(s)[i] by {
            let v = sort_spec(s)[i];
            if v == s.last() {
                assert(s[s.len() - 1] == v);
            } else {
                let j1 = choose|j: int| 0 <= j < sort_spec(t).len() && sort_spec(t)[j] == v;
                let j2 = choose|j: int| 0 <= j < t.len() && t[j] == sort_spec(t)[j1];
                assert(s[j2] == v);
            }
        }
    }
}

proof fn lemma_lex_antisym(a: Seq<u8>, b: Seq<u8>)
    requires
        lex_le(a, b),
        lex_le(b, a),
    ensures
        a == b,
    decreases a.len(),
{
    if a.len() == 0 || b.len() == 0 {
        assert(a =~= b);
    } else {
        lemma_lex_antisym(a.drop_first(), b.drop_first());
        assert(a =~= seq![a[0]] + a.drop_first());
        assert(b =~= seq![b[0]] + b.drop_first());
    }
}

proof fn lemma_lex_trans(a: Seq<u8>, b: Seq<u8>, c: Seq<u8>)
    requires
        lex_le(a, b),
        lex_le(b, c),
    ensures
        lex_le(a, c),
    decreases a.len(),
{
    if a.len() > 0 && b.len() > 0 && c.len() > 0 && a[0] == b[0] && b[0] == c[0] {
        lemma_lex_trans(a.drop_first(), b.drop_first(), c.drop_first());
    }
}

proof fn lemma_sorted_first_le(s: Seq<Seq<u8>>, i: int)
    requires
        lex_sorted(s),
        0 <= i < s.len(),
    ensures
        lex_le(s[0], s[i]),
    decreases i,
{
    if i == 0 {
        lemma_lex_total(s[0], s[0]);
    } else {
        lemma_sorted_first_le(s, i - 1);
        lemma_lex_trans(s[0], s[i - 1], s[i]);
    }
}

proof fn lemma_insert_multiset(x: Seq<u8>, s: Seq<Seq<u8>>)
    ensures
        insert_sorted(x, s).to_multiset() == s.to_multiset().insert(x),
    decreases s.len(),
{
    broadcast use vstd::seq_lib::to_multiset_insert;

    if s.len() == 0 {
        assert(insert_sorted(x, s) =~= s.insert(0, x));
    } else if lex_le(x, s[0]) {
        assert(insert_sorted(x, s) =~= s.insert(0, x));
    } else {
        let t = s.drop_first();
        lemma_insert_multiset(x, t);
        assert(insert_sorted(x, s) =~= insert_sorted(x, t).insert(0, s[0]));
        assert(s =~= t.insert(0, s[0]));
        assert(insert_sorted(x, s).to_multiset() =~= s.to_multiset().insert(x));
    }
}

proof fn lemma_sort_multiset(s: Seq<Seq<u8>>)
    ensures
        sort_spec(s).to_multiset() == s.to_multiset(),
    decreases s.len(),
{
    broadcast use vstd::seq_lib::to_multiset_build;

    if s.len() == 0 {
        assert(sort_spec(s) =~= s);
    } else {
        lemma_sort_multiset(s.drop_last());
        lemma_insert_multiset(s.last(), sort_spec(s.drop_last()));
        assert(s =~= s.drop_last().push(s.last()));
    }
}

proof fn lemma_sorted_unique(a: Seq<Seq<u8>>, b: Seq<Seq<u8>>)
    requires
        lex_sorted(a),
        lex_sorted(b),
        a.to_multiset() == b.to_multiset(),
    ensures
        a == b,
    decreases a.len(),
{
    broadcast use vstd::seq_lib::to_multiset_len, vstd::seq_lib::to_multiset_contains, vstd::seq_lib::to_multiset_remove;

    assert(a.len() == a.to_multiset().len());
    assert(b.len() == b.to_multiset().len());
    if a.len() == 0 {
        assert(a =~= b);
    } else {
        assert(a.contains(a[0]));
        assert(a.to_multiset().count(a[0]) > 0);
        assert(b.contains(a[0]));
        let j = choose|j: int| 0 <= j < b.len() && b[j] == a[0];
        lemma_sorted_first_le(b, j);
        assert(b.contains(b[0]));
        assert(b.to_multiset().count(b[0]) > 0);
        assert(a.contains(b[0]));
        let i = choose|i: int| 0 <= i < a.len() && a[i] == b[0];
        lemma_sorted_first_le(a, i);
        lemma_lex_antisym(a[0], b[0]);
        let a1 = a.remove(0);
        let b1 = b.remove(0);
        assert(a1.to_multiset() == a.to_multiset().remove(a[0]));
        assert(b1.to_multiset() == b.to_multiset().remove(b[0]));
        assert forall|q: int| 0 <= q < a1.len() - 1 implies lex_le(#[trigger] a1[q], a1[q + 1]) by {
            assert(a1[q] == a[q + 1] && a1[q + 1] == a[q + 2]);
        }
        assert forall|q: int| 0 <= q < b1.len() - 1 implies lex_le(#[trigger] b1[q], b1[q + 1]) by {
            assert(b1[q] == b[q + 1] && b1[q + 1] == b[q + 2]);
        }
        lemma_sorted_unique(a1, b1);
        assert(a =~= a1.insert(0, a[0]));
        assert(b =~= b1.insert(0, b[0]));
    }
}

/// Sorting gives the same order for any arrangement of the same byte strings.
pub proof fn lemma_sort_permutation(s: Seq<Seq<u8>>, t: Seq<Seq<u8>>)
    requires
        s.to_multiset() == t.to_multiset(),
    ensures
        sort_spec(s) == sort_spec(t),
{
    lemma_sort_sorted(s);
    lemma_sort_sorted(t);
    lemma_sort_multiset(s);
    lemma_sort_multiset(t);
    lemma_sorted_unique(sort_spec(s), sort_spec(t));
}

/// Two sorted multisigs with the same threshold over the same keys, in any
/// order, have the same witness script.
pub proof fn lemma_sortedmulti_order_free(a: SortedMultiVec, b: SortedMultiVec)
    requires
        a.k == b.k,
        key_seqs(a.pks@).to_multiset() == key_seqs(b.pks@).to_multiset(),
    ensures
        a.spec_encode() == b.spec_encode(),
{
    lemma_sort_permutation(key_seqs(a.pks@), key_seqs(b.pks@));
}

} // verus!
