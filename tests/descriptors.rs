use segwit_descriptors::checksum::desc_checksum;
use segwit_descriptors::error::Error;
use segwit_descriptors::key::PublicKey;
use segwit_descriptors::policy::{Miniscript, SigMap};
use segwit_descriptors::segwitv0::{Policy, Wpkh, Wsh, WshInner};

const G: &str = "0279be667ef9dcbbac55a06295ce870b07029bfcdb2dce28d959f2815b16f81798";
const G2: &str = "02c6047f9441ed7d6d3045406e95c07cd85c778e4b8cef3ca7abac09b95c709ee5";
const G3: &str = "02f9308a019258c31049344f85f89d5229b531c845836f99b08601f113bce036f9";
const G_UNCOMPRESSED: &str = "0479be667ef9dcbbac55a06295ce870b07029bfcdb2dce28d959f2815b16f81798483ada7726a3c4655da4fbfc0e1108a8fd17b448a68554199c47d08ffb10d4b8";
const G_HASH160: &str = "751e76e8199196d454941c45d1b3a323f1433bd6";

fn key(s: &str) -> PublicKey {
    PublicKey::from_str(s).expect("valid key")
}

fn unhex(s: &str) -> Vec<u8> {
    (0..s.len()).step_by(2).map(|i| u8::from_str_radix(&s[i..i + 2], 16).unwrap()).collect()
}

fn with_checksum(d: &str) -> String {
    format!("{}#{}", d, desc_checksum(d).unwrap())
}

fn witness_size(w: &[Vec<u8>]) -> usize {
    // every element here is shorter than 253 bytes, as is the element count
    1 + w.iter().map(|e| 1 + e.len()).sum::<usize>()
}

#[test]
fn checksum_known_vector() {
    assert_eq!(desc_checksum("raw(deadbeef)"), Some("89f8spxm".to_string()));
}

#[test]
fn checksum_rejects_character_outside_charset() {
    assert_eq!(desc_checksum("wpkh(\u{e9})"), None);
}

#[test]
fn key_parse_and_text() {
    let k = key(G);
    assert_eq!(k.to_bytes(), unhex(G));
    assert_eq!(k.to_string(), G);
    assert!(!k.is_uncompressed());
    assert!(key(G_UNCOMPRESSED).is_uncompressed());
    assert!(PublicKey::from_str("02zz").is_none());
}

#[test]
fn wpkh_compressed_key_parses() {
    let text = with_checksum(&format!("wpkh({})", G));
    let w = Wpkh::from_str(&text).unwrap();
    assert_eq!(w.as_inner(), &key(G));
    assert_eq!(w.to_string(), text);
}

#[test]
fn wpkh_uncompressed_key_fails_at_parse() {
    let text = with_checksum(&format!("wpkh({})", G_UNCOMPRESSED));
    assert_eq!(Wpkh::from_str(&text), Err(Error::CompressedOnly(G_UNCOMPRESSED.to_string())));
}

#[test]
fn wpkh_new_rejects_uncompressed() {
    assert_eq!(Wpkh::new(key(G_UNCOMPRESSED)), Err(Error::CompressedOnly(G_UNCOMPRESSED.to_string())));
    assert!(Wpkh::new(key(G)).unwrap().sanity_check().is_ok());
}

#[test]
fn wpkh_round_trip() {
    let w = Wpkh::new(key(G2)).unwrap();
    assert_eq!(w.to_string_no_checksum(), format!("wpkh({})", G2));
    assert_eq!(Wpkh::from_str(&w.to_string()), Ok(w));
}

#[test]
fn wpkh_checksum_flip_rejected() {
    let text = Wpkh::new(key(G)).unwrap().to_string();
    let n = text.len();
    for i in n - 8..n {
        let mut chars: Vec<char> = text.chars().collect();
        chars[i] = if chars[i] == 'q' { 'p' } else { 'q' };
        let bad: String = chars.into_iter().collect();
        assert_eq!(Wpkh::from_str(&bad), Err(Error::BadChecksum));
    }
}

#[test]
fn wpkh_missing_or_bad_checksum_and_syntax() {
    assert_eq!(Wpkh::from_str(&format!("wpkh({})", G)), Err(Error::BadChecksum));
    assert_eq!(Wpkh::from_str(&format!("wpkh({})#", G)), Err(Error::BadChecksum));
    assert_eq!(Wpkh::from_str(&with_checksum(&format!("pkh({})", G))), Err(Error::Unexpected("pkh".to_string(), 1)));
    assert_eq!(Wpkh::from_str(&with_checksum(&format!("wpkh({},{})", G, G2))), Err(Error::Unexpected("wpkh".to_string(), 2)));
    assert_eq!(Wpkh::from_str(&with_checksum("wpkh(02abcd)")), Err(Error::BadKey));
}

#[test]
fn wpkh_scripts() {
    let w = Wpkh::new(key(G)).unwrap();
    let mut spk = vec![0x00, 0x14];
    spk.extend(unhex(G_HASH160));
    assert_eq!(w.spk(), spk);
    assert_eq!(w.script_pubkey(), spk);
    assert_eq!(w.inner_script(), spk);
    assert_eq!(w.explicit_script(), Ok(spk.clone()));
    let mut code = vec![0x76, 0xa9, 0x14];
    code.extend(unhex(G_HASH160));
    code.extend([0x88, 0xac]);
    assert_eq!(w.ecdsa_sighash_script_code(), code);
    assert_eq!(w.script_code(), Ok(code.clone()));
    assert_ne!(w.ecdsa_sighash_script_code(), w.spk());
    assert!(w.unsigned_script_sig().is_empty());
}

#[test]
fn wpkh_address() {
    let w = Wpkh::new(key(G)).unwrap();
    assert_eq!(w.address(bitcoin::Network::Bitcoin).to_string(), "bc1qw508d6qejxtdg4y5r3zarvary0c5xw7kv8f3t4");
}

#[test]
fn wpkh_satisfaction() {
    let w = Wpkh::new(key(G)).unwrap();
    let sig = vec![0x30u8; 72];
    let mut sigs = SigMap::new();
    sigs.insert(&key(G2), vec![1, 2, 3]);
    sigs.insert(&key(G), sig.clone());
    let (wit, script_sig) = w.get_satisfaction(&sigs).unwrap();
    assert_eq!(wit, vec![sig.clone(), unhex(G)]);
    assert!(script_sig.is_empty());
    assert_eq!(w.get_satisfaction_mall(&sigs).unwrap().0, wit);
    let weight = w.max_satisfaction_weight().unwrap();
    assert_eq!(weight, 4 + 1 + 73 + 34);
    assert!(witness_size(&wit) <= weight);
}

#[test]
fn wpkh_missing_signature() {
    let w = Wpkh::new(key(G)).unwrap();
    let mut sigs = SigMap::new();
    sigs.insert(&key(G2), vec![1, 2, 3]);
    assert_eq!(w.get_satisfaction(&sigs), Err(Error::MissingSig(key(G))));
    assert_eq!(w.get_satisfaction_mall(&SigMap::new()), Err(Error::MissingSig(key(G))));
}

fn sorted_script() -> Vec<u8> {
    let mut s = vec![0x52];
    for k in [G, G2, G3] {
        s.push(0x21);
        s.extend(unhex(k));
    }
    s.extend([0x53, 0xae]);
    s
}

#[test]
fn wsh_sortedmulti_sorts_keys() {
    let w = Wsh::new_sortedmulti(2, vec![key(G3), key(G), key(G2)]).unwrap();
    assert!(matches!(w.as_inner(), WshInner::SortedMulti(_)));
    assert_eq!(w.inner_script(), sorted_script());
    assert_eq!(w.ecdsa_sighash_script_code(), w.inner_script());
    assert_eq!(w.explicit_script(), Ok(sorted_script()));
    assert_eq!(w.to_string_no_checksum(), format!("wsh(sortedmulti(2,{},{},{}))", G3, G, G2));
}

#[test]
fn wsh_sortedmulti_errors() {
    assert_eq!(Wsh::new_sortedmulti(0, vec![key(G)]), Err(Error::BadThreshold));
    assert_eq!(Wsh::new_sortedmulti(3, vec![key(G), key(G2)]), Err(Error::BadThreshold));
    assert_eq!(Wsh::new_sortedmulti(1, vec![key(G); 21]), Err(Error::TooManyPubkeys));
    assert_eq!(
        Wsh::new_sortedmulti(1, vec![key(G), key(G_UNCOMPRESSED)]),
        Err(Error::CompressedOnly(G_UNCOMPRESSED.to_string()))
    );
}

#[test]
fn wsh_pk_scripts() {
    let w = Wsh::new(Miniscript::Pk(key(G))).unwrap();
    let mut script = vec![0x21];
    script.extend(unhex(G));
    script.push(0xac);
    assert_eq!(w.inner_script(), script);
    let spk = w.spk();
    assert_eq!(spk.len(), 34);
    assert_eq!(&spk[..2], &[0x00, 0x20]);
    assert_eq!(w.script_pubkey(), spk);
    assert_ne!(Wsh::new(Miniscript::Pk(key(G2))).unwrap().spk(), spk);
    assert_eq!(w.to_string_no_checksum(), format!("wsh(pk({}))", G));
    assert!(w.sanity_check().is_ok());
    assert!(w.unsigned_script_sig().is_empty());
    assert_eq!(w.address(bitcoin::Network::Bitcoin).script_pubkey().into_bytes(), spk);
}

#[test]
fn wsh_new_errors() {
    assert_eq!(Wsh::new(Miniscript::Multi(0, vec![key(G)])), Err(Error::BadThreshold));
    assert_eq!(Wsh::new(Miniscript::Multi(1, vec![key(G); 21])), Err(Error::TooManyPubkeys));
    assert_eq!(
        Wsh::new(Miniscript::Pk(key(G_UNCOMPRESSED))),
        Err(Error::CompressedOnly(G_UNCOMPRESSED.to_string()))
    );
}

#[test]
fn wsh_multi_satisfaction_and_weight() {
    let w = Wsh::new(Miniscript::Multi(2, vec![key(G), key(G2), key(G3)])).unwrap();
    let script = w.inner_script();
    assert_eq!(script.len(), 105);
    let mut sigs = SigMap::new();
    sigs.insert(&key(G3), vec![3u8; 72]);
    sigs.insert(&key(G), vec![1u8; 72]);
    let (wit, script_sig) = w.get_satisfaction(&sigs).unwrap();
    assert_eq!(wit, vec![vec![], vec![1u8; 72], vec![3u8; 72], script.clone()]);
    assert!(script_sig.is_empty());
    assert_eq!(w.get_satisfaction_mall(&sigs).unwrap().0, wit);
    let weight = w.max_satisfaction_weight().unwrap();
    assert_eq!(weight, 4 + 1 + 105 + 1 + 1 + 73 * 2);
    assert!(witness_size(&wit) <= weight);
}

#[test]
fn wsh_sortedmulti_satisfaction_in_sorted_order() {
    let w = Wsh::new_sortedmulti(2, vec![key(G3), key(G), key(G2)]).unwrap();
    let mut sigs = SigMap::new();
    sigs.insert(&key(G3), vec![3u8; 70]);
    sigs.insert(&key(G2), vec![2u8; 71]);
    let (wit, _) = w.get_satisfaction(&sigs).unwrap();
    assert_eq!(wit, vec![vec![], vec![2u8; 71], vec![3u8; 70], sorted_script()]);
}

#[test]
fn wsh_missing_signatures() {
    let w = Wsh::new(Miniscript::Pk(key(G))).unwrap();
    assert_eq!(w.get_satisfaction(&SigMap::new()), Err(Error::MissingSig(key(G))));
    let m = Wsh::new_sortedmulti(2, vec![key(G), key(G2)]).unwrap();
    let mut sigs = SigMap::new();
    sigs.insert(&key(G), vec![1u8; 72]);
    assert_eq!(m.get_satisfaction(&sigs), Err(Error::CouldNotSatisfy));
    assert_eq!(m.get_satisfaction_mall(&sigs), Err(Error::CouldNotSatisfy));
}

#[test]
fn wsh_pk_weight() {
    let w = Wsh::new(Miniscript::Pk(key(G))).unwrap();
    assert_eq!(w.max_satisfaction_weight(), Ok(4 + 1 + 35 + 1 + 73));
}

#[test]
fn wsh_sortedmulti_parses() {
    let text = with_checksum(&format!("wsh(sortedmulti(2,{},{},{}))", G, G2, G3));
    let w = Wsh::from_str(&text).unwrap();
    match w.as_inner() {
        WshInner::SortedMulti(smv) => {
            assert_eq!(smv.k, 2);
            assert_eq!(smv.pks, vec![key(G), key(G2), key(G3)]);
        }
        WshInner::Ms(_) => panic!("expected the sorted multisig form"),
    }
    assert_eq!(w.inner_script(), sorted_script());
    assert_eq!(w.to_string(), text);
}

#[test]
fn wsh_round_trips() {
    let all = vec![
        Wsh::new_sortedmulti(2, vec![key(G3), key(G), key(G2)]).unwrap(),
        Wsh::new(Miniscript::Multi(1, vec![key(G2), key(G)])).unwrap(),
        Wsh::new(Miniscript::Pk(key(G3))).unwrap(),
    ];
    for w in all {
        assert_eq!(Wsh::from_str(&w.to_string()), Ok(w.clone()));
    }
}

#[test]
fn wsh_parse_errors() {
    let good = Wsh::new(Miniscript::Pk(key(G))).unwrap().to_string();
    let mut flipped: Vec<char> = good.chars().collect();
    let last = flipped.len() - 1;
    flipped[last] = if flipped[last] == 'q' { 'p' } else { 'q' };
    let flipped: String = flipped.into_iter().collect();
    assert_eq!(Wsh::from_str(&flipped), Err(Error::BadChecksum));
    assert_eq!(Wsh::from_str(&format!("wsh(pk({}))", G)), Err(Error::BadChecksum));
    assert_eq!(Wsh::from_str(&with_checksum(&format!("sh(pk({}))", G))), Err(Error::Unexpected("sh".to_string(), 1)));
    assert_eq!(Wsh::from_str(&with_checksum(&format!("wsh(pkh({}))", G))), Err(Error::Unexpected("pkh".to_string(), 1)));
    assert_eq!(Wsh::from_str(&with_checksum(&format!("wsh(multi(x,{}))", G))), Err(Error::Unexpected("multi".to_string(), 2)));
    assert_eq!(Wsh::from_str(&with_checksum("wsh(multi(1))")), Err(Error::Unexpected("multi".to_string(), 1)));
    assert_eq!(Wsh::from_str(&with_checksum("wsh()")), Err(Error::Unexpected("".to_string(), 0)));
    assert_eq!(Wsh::from_str(&with_checksum("wsh(pk(a),b)")), Err(Error::Unexpected("wsh".to_string(), 2)));
    assert_eq!(Wsh::from_str(&with_checksum(&format!("wsh(multi(1,{},02ab))", G))), Err(Error::BadKey));
    assert_eq!(Wsh::from_str(&with_checksum(&format!("wsh(multi(3,{},{}))", G, G2))), Err(Error::BadThreshold));
    assert_eq!(
        Wsh::from_str(&with_checksum(&format!("wsh(sortedmulti(1,{}))", G_UNCOMPRESSED))),
        Err(Error::CompressedOnly(G_UNCOMPRESSED.to_string()))
    );
    assert_eq!(
        Wsh::from_str(&with_checksum(&format!("wsh(pk({}))", G_UNCOMPRESSED))),
        Err(Error::CompressedOnly(G_UNCOMPRESSED.to_string()))
    );
}

#[test]
fn for_each_key_visits_keys() {
    let w = Wsh::new(Miniscript::Multi(1, vec![key(G), key(G2)])).unwrap();
    assert!(w.for_each_key(|k: &PublicKey| !k.is_uncompressed()));
    let g2 = key(G2);
    assert!(!w.for_each_key(|k: &PublicKey| k != &g2));
    let p = Wpkh::new(key(G)).unwrap();
    assert!(p.for_each_key(|k: &PublicKey| k.to_string() == G));
    assert!(!p.for_each_key(|_k: &PublicKey| false));
}

#[test]
fn lift_to_key_hashes() {
    let p = Wpkh::new(key(G)).unwrap();
    assert_eq!(p.lift(), Ok(Policy::KeyHash(unhex(G_HASH160))));
    let w = Wsh::new(Miniscript::Pk(key(G))).unwrap();
    assert_eq!(w.lift(), Ok(Policy::KeyHash(unhex(G_HASH160))));
    let m = Wsh::new_sortedmulti(1, vec![key(G), key(G2)]).unwrap();
    match m.lift() {
        Ok(Policy::Threshold(k, hs)) => {
            assert_eq!(k, 1);
            assert_eq!(hs.len(), 2);
            assert_eq!(hs[0], unhex(G_HASH160));
            assert_ne!(hs[1], hs[0]);
        }
        other => panic!("unexpected lift {:?}", other),
    }
}

#[test]
fn translate_replaces_keys() {
    let swap = |k: &PublicKey| -> Result<PublicKey, String> {
        if k == &key(G) {
            Ok(key(G2))
        } else {
            Err(format!("no mapping for {}", k.to_string()))
        }
    };
    let never = |_h: &Vec<u8>| -> Result<Vec<u8>, String> { panic!("key hashes are never mapped") };
    let p = Wpkh::new(key(G)).unwrap();
    assert_eq!(p.translate_pk(swap, never).unwrap().as_inner(), &key(G2));
    let w = Wsh::new(Miniscript::Multi(1, vec![key(G), key(G)])).unwrap();
    let t = w.translate_pk(swap, never).unwrap();
    assert_eq!(t.as_inner(), &WshInner::Ms(Miniscript::Multi(1, vec![key(G2), key(G2)])));
    let bad = Wsh::new_sortedmulti(1, vec![key(G), key(G3)]).unwrap();
    assert_eq!(bad.translate_pk(swap, never), Err(format!("no mapping for {}", G3)));
}

#[test]
fn compressed_only_names_first_uncompressed_key() {
    let keys = vec![key(G), key(G_UNCOMPRESSED), key(G2)];
    assert_eq!(Wsh::new_sortedmulti(2, keys.clone()), Err(Error::CompressedOnly(G_UNCOMPRESSED.to_string())));
    assert_eq!(Wsh::new(Miniscript::Multi(2, keys)), Err(Error::CompressedOnly(G_UNCOMPRESSED.to_string())));
}

#[test]
fn sortedmulti_script_ignores_key_order() {
    let a = Wsh::new_sortedmulti(2, vec![key(G), key(G2), key(G3)]).unwrap();
    let b = Wsh::new_sortedmulti(2, vec![key(G2), key(G3), key(G)]).unwrap();
    assert_eq!(a.inner_script(), b.inner_script());
    assert_eq!(a.spk(), b.spk());
}

#[test]
fn address_depends_on_network() {
    let w = Wsh::new(Miniscript::Pk(key(G))).unwrap();
    let main = w.address(bitcoin::Network::Bitcoin);
    let test = w.address(bitcoin::Network::Testnet);
    assert_ne!(main.to_string(), test.to_string());
    assert_eq!(main.script_pubkey(), test.script_pubkey());
    let p = Wpkh::new(key(G)).unwrap();
    assert_eq!(p.address(bitcoin::Network::Testnet).to_string(), "tb1qw508d6qejxtdg4y5r3zarvary0c5xw7kxpjzsx");
}
