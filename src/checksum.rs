//! The descriptor checksum: an 8-character BCH code over the text before `#`.
use vstd::prelude::*;

verus! {

/// Characters a descriptor may hold, in the order that gives each its value.
pub open spec fn input_charset() -> Seq<char> {
    "0123456789()[],'/*abcdefgh@:$%{}IJKLMNOPQRSTUVWXYZ&+-.;<=>?!^_|~ijklmnopqrstuvwxyzABCDEFGH`#\"\\ "@
}

/// Characters of the checksum itself, one per 5-bit group.
pub open spec fn checksum_charset() -> Seq<char> {
    "qpzry9x8gf2tvdw0s3jn54khce6mua7l"@
}

/// First position at or after `i` where `s` holds `c`.
pub open spec fn find_from(s: Seq<char>, c: char, i: int) -> Option<nat>
    decreases s.len() - i,
{
    if i < 0 || i >= s.len() {
        None
    } else if s[i] == c {
        Some(i as nat)
    } else {
        find_from(s, c, i + 1)
    }
}

pub open spec fn charset_pos(c: char) -> Option<nat> {
    find_from(input_charset(), c, 0)
}

pub open spec fn all_in_charset(s: Seq<char>) -> bool {
    forall|i: int| 0 <= i < s.len() ==> (#[trigger] charset_pos(s[i])).is_some()
}

/// One step of the checksum's polynomial division.
pub open spec fn poly_mod_spec(c: u64, val: u64) -> u64 {
    let c0 = c >> 35u64;
    let c1 = ((c & 0x7ffffffffu64) << 5u64) ^ val;
    let c2 = if c0 & 1u64 != 0 { c1 ^ 0xf5dee51989u64 } else { c1 };
    let c3 = if c0 & 2u64 != 0 { c2 ^ 0xa9fdca3312u64 } else { c2 };
    let c4 = if c0 & 4u64 != 0 { c3 ^ 0x1bab10e32du64 } else { c3 };
    let c5 = if c0 & 8u64 != 0 { c4 ^ 0x3706b1677au64 } else { c4 };
    if c0 & 16u64 != 0 { c5 ^ 0x644d626ffdu64 } else { c5 }
}

/// State after feeding the characters of `s`: (remainder, pending class digits, their count).
pub open spec fn fold_state(s: Seq<char>) -> (u64, u64, u64)
    decreases s.len(),
{
    if s.len() == 0 {
        (1u64, 0u64, 0u64)
    } else {
        let (c, cls, n) = fold_state(s.drop_last());
        let pos = match charset_pos(s.last()) {
            Some(p) => p as u64,
            None => 0u64,
        };
        let c1 = poly_mod_spec(c, pos & 31u64);
        let cls1 = (cls * 3 + (pos >> 5u64)) as u64;
        if n + 1 == 3 {
            (poly_mod_spec(c1, cls1), 0u64, 0u64)
        } else {
            (c1, cls1, (n + 1) as u64)
        }
    }
}

pub open spec fn pad_zeros(c: u64, k: nat) -> u64
    decreases k,
{
    if k == 0 {
        c
    } else {
        pad_zeros(poly_mod_spec(c, 0), (k - 1) as nat)
    }
}

/// The final 40-bit value whose 5-bit groups name the checksum characters.
pub open spec fn checksum_value(s: Seq<char>) -> u64 {
    let (c, cls, n) = fold_state(s);
    let c1 = if n > 0 { poly_mod_spec(c, cls) } else { c };
    pad_zeros(c1, 8) ^ 1u64
}

pub open spec fn checksum_digit(v: u64, j: int) -> char {
    checksum_charset()[((v >> ((5 * (7 - j)) as u64)) & 31u64) as int]
}

/// The checksum of `s`, for `s` made of charset characters only.
pub open spec fn checksum_of(s: Seq<char>) -> Seq<char> {
    Seq::new(8, |j: int| checksum_digit(checksum_value(s), j))
}

fn poly_mod(c: u64, val: u64) -> (r: u64)
    ensures
        r == poly_mod_spec(c, val),
{
    let c0 = c >> 35u64;
    let mut r = ((c & 0x7ffffffffu64) << 5u64) ^ val;
    if c0 & 1u64 != 0 {
        r = r ^ 0xf5dee51989u64;
    }
    if c0 & 2u64 != 0 {
        r = r ^ 0xa9fdca3312u64;
    }
    if c0 & 4u64 != 0 {
        r = r ^ 0x1bab10e32du64;
    }
    if c0 & 8u64 != 0 {
        r = r ^ 0x3706b1677au64;
    }
    if c0 & 16u64 != 0 {
        r = r ^ 0x644d626ffdu64;
    }
    r
}

fn find_in_charset(c: char) -> (r: Option<u64>)
    ensures
        r.is_some() == charset_pos(c).is_some(),
        r matches Some(p) ==> charset_pos(c) == Some(p as nat) && p < 95,
{
    let cs: &str = "0123456789()[],'/*abcdefgh@:$%{}IJKLMNOPQRSTUVWXYZ&+-.;<=>?!^_|~ijklmnopqrstuvwxyzABCDEFGH`#\"\\ ";
    proof {
        reveal_strlit("0123456789()[],'/*abcdefgh@:$%{}IJKLMNOPQRSTUVWXYZ&+-.;<=>?!^_|~ijklmnopqrstuvwxyzABCDEFGH`#\"\\ ");
    }
    let n = cs.unicode_len();
    assert(n == 95);
    let mut i: usize = 0;
    while i < n
        invariant
            n == cs@.len(),
            n == 95,
            cs@ == input_charset(),
            i <= n,
            find_from(cs@, c, 0) == find_from(cs@, c, i as int),
        decreases n - i,
    {
        if cs.get_char(i) == c {
            assert(find_from(cs@, c, i as int) == Some(i as nat));
            return Some(i as u64);
        }
        i = i + 1;
    }
    None
}

/// Checksum of `desc`; `None` where `desc` holds a character outside the descriptor charset.
pub fn desc_checksum(desc: &str) -> (r: Option<String>)
    ensures
        r.is_some() == all_in_charset(desc@),
        r matches Some(cs) ==> cs@ == checksum_of(desc@),
{
    let len = desc.unicode_len();
    let mut c: u64 = 1;
    let mut cls: u64 = 0;
    let mut n: u64 = 0;
    let mut i: usize = 0;
    while i < len
        invariant
            len == desc@.len(),
            i <= len,
            (c, cls, n) == fold_state(desc@.subrange(0, i as int)),
            n < 3,
            n == 0 ==> cls == 0,
            n == 1 ==> cls < 3,
            n == 2 ==> cls < 9,
            all_in_charset(desc@.subrange(0, i as int)),
        decreases len - i,
    {
        let ch = desc.get_char(i);
        let pos = match find_in_charset(ch) {
            Some(p) => p,
            None => {
                proof {
                    assert(desc@[i as int] == ch);
                }
                return None;
            },
        };
        assert(pos >> 5u64 <= 2) by (bit_vector)
            requires
                pos < 95,
        ;
        let ghost s_next = desc@.subrange(0, i as int + 1);
        assert(s_next.drop_last() =~= desc@.subrange(0, i as int));
        assert(s_next.last() == ch);
        c = poly_mod(c, pos & 31u64);
        cls = cls * 3 + (pos >> 5u64);
        n = n + 1;
        if n == 3 {
            c = poly_mod(c, cls);
            cls = 0;
            n = 0;
        }
        i = i + 1;
        assert forall|j: int| 0 <= j < s_next.len() implies (#[trigger] charset_pos(s_next[j])).is_some() by {
            if j < i - 1 {
                assert(s_next[j] == desc@.subrange(0, i - 1)[j]);
            }
        }
    }
    assert(desc@.subrange(0, len as int) =~= desc@);
    if n > 0 {
        c = poly_mod(c, cls);
    }
    let ghost c1 = c;
    let mut k: usize = 0;
    while k < 8
        invariant
            k <= 8,
            pad_zeros(c, (8 - k) as nat) == pad_zeros(c1, 8),
        decreases 8 - k,
    {
        c = poly_mod(c, 0);
        k = k + 1;
    }
    c = c ^ 1u64;
    let digits: &str = "qpzry9x8gf2tvdw0s3jn54khce6mua7l";
    proof {
        reveal_strlit("qpzry9x8gf2tvdw0s3jn54khce6mua7l");
    }
    assert(digits@.len() == 32);
    let mut out = String::new();
    let mut j: usize = 0;
    while j < 8
        invariant
            j <= 8,
            digits@ == checksum_charset(),
            digits@.len() == 32,
            c == checksum_value(desc@),
            out@ =~= Seq::new(j as nat, |q: int| checksum_digit(c, q)),
        decreases 8 - j,
    {
        let sh: u64 = 5 * (7 - j as u64);
        let idx = ((c >> sh) & 31u64) as usize;
        assert(((c >> sh) & 31u64) < 32) by (bit_vector);
        let piece = digits.substring_char(idx, idx + 1);
        out.append(piece);
        j = j + 1;
    }
    Some(out)
}

} // verus!
