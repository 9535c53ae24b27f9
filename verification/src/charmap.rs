//! Precompiled character maps, in base64: which of them a normalizer can work
//! with on every text.
//!
//! A map holds the length of a trie in bytes, the trie as an array of units of
//! four bytes, and the texts that stand for what is replaced. A unit says by its
//! offset at which place its children are found, and whether it has a value: the
//! place of a replacement, in the unit at that offset.

use vstd::prelude::*;
use vstd::utf8::{is_continuation_byte, valid_utf8};

use crate::chars::to_chars;

verus! {

/// The value of a base64 digit.
pub open spec fn sextet(c: char) -> Option<u8> {
    if 'A' <= c && c <= 'Z' {
        Some((c as u32 - 65) as u8)
    } else if 'a' <= c && c <= 'z' {
        Some((c as u32 - 97 + 26) as u8)
    } else if '0' <= c && c <= '9' {
        Some((c as u32 - 48 + 52) as u8)
    } else if c == '+' {
        Some(62u8)
    } else if c == '/' {
        Some(63u8)
    } else {
        None
    }
}

fn digit(c: char) -> (r: Option<u8>)
    ensures
        r == sextet(c),
        r matches Some(v) ==> v < 64,
{
    if 'A' <= c && c <= 'Z' {
        Some((c as u32 - 65) as u8)
    } else if 'a' <= c && c <= 'z' {
        Some((c as u32 - 97 + 26) as u8)
    } else if '0' <= c && c <= '9' {
        Some((c as u32 - 48 + 52) as u8)
    } else if c == '+' {
        Some(62u8)
    } else if c == '/' {
        Some(63u8)
    } else {
        None
    }
}

/// The bytes of four digits; the last four may be filled up with one or two
/// equality signs, where nothing is lost.
pub open spec fn group(a: char, b: char, c: char, d: char, last: bool) -> Option<Seq<u8>> {
    match (sextet(a), sextet(b), sextet(c), sextet(d)) {
        (Some(v), Some(w), Some(x), Some(y)) => Some(
            seq![
                (v * 4 + w / 16) as u8,
                ((w % 16) * 16 + x / 4) as u8,
                ((x % 4) * 64 + y) as u8,
            ],
        ),
        (Some(v), Some(w), Some(x), None) => if last && d == '=' && x % 4 == 0 {
            Some(seq![(v * 4 + w / 16) as u8, ((w % 16) * 16 + x / 4) as u8])
        } else {
            None
        },
        (Some(v), Some(w), None, None) => if last && c == '=' && d == '=' && w % 16 == 0 {
            Some(seq![(v * 4 + w / 16) as u8])
        } else {
            None
        },
        _ => None,
    }
}

/// The bytes of the first `n` groups of four digits.
pub open spec fn group_bytes(s: Seq<char>, n: nat) -> Option<Seq<u8>>
    decreases n,
{
    if n == 0 {
        Some(Seq::empty())
    } else {
        let at = 4 * (n - 1);
        match (
            group_bytes(s, (n - 1) as nat),
            group(s[at], s[at + 1], s[at + 2], s[at + 3], 4 * n == s.len()),
        ) {
            (Some(front), Some(more)) => Some(front + more),
            _ => None,
        }
    }
}

/// The bytes of a base64 text.
pub open spec fn base64_bytes(s: Seq<char>) -> Option<Seq<u8>> {
    if s.len() % 4 == 0 {
        group_bytes(s, s.len() / 4)
    } else {
        None
    }
}

fn decode_group(a: char, b: char, c: char, d: char, last: bool) -> (r: Option<Vec<u8>>)
    ensures
        match r {
            Some(bytes) => group(a, b, c, d, last) == Some(bytes@),
            None => group(a, b, c, d, last) is None,
        },
{
    let mut bytes: Vec<u8> = Vec::new();
    match (digit(a), digit(b), digit(c), digit(d)) {
        (Some(v), Some(w), Some(x), Some(y)) => {
            bytes.push(v * 4 + w / 16);
            bytes.push((w % 16) * 16 + x / 4);
            bytes.push((x % 4) * 64 + y);
            assert(bytes@ =~= group(a, b, c, d, last).unwrap());
            Some(bytes)
        },
        (Some(v), Some(w), Some(x), None) => {
            if last && d == '=' && x % 4 == 0 {
                bytes.push(v * 4 + w / 16);
                bytes.push((w % 16) * 16 + x / 4);
                assert(bytes@ =~= group(a, b, c, d, last).unwrap());
                Some(bytes)
            } else {
                None
            }
        },
        (Some(v), Some(w), None, None) => {
            if last && c == '=' && d == '=' && w % 16 == 0 {
                bytes.push(v * 4 + w / 16);
                assert(bytes@ =~= group(a, b, c, d, last).unwrap());
                Some(bytes)
            } else {
                None
            }
        },
        _ => None,
    }
}

/// The bytes of a base64 text.
pub fn decode_base64(text: &str) -> (r: Option<Vec<u8>>)
    ensures
        match r {
            Some(bytes) => base64_bytes(text@) == Some(bytes@),
            None => base64_bytes(text@) is None,
        },
{
    let s = to_chars(text);
    let total: usize = s.len();
    if total % 4 != 0 {
        return None;
    }
    let groups: usize = total / 4;
    let mut bytes: Vec<u8> = Vec::new();
    for n in 0..groups
        invariant
            s@ == text@,
            total == s@.len(),
            total % 4 == 0,
            groups == total / 4,
            group_bytes(s@, n as nat) == Some(bytes@),
    {
        let at: usize = 4 * n;
        let last = at + 4 == total;
        match decode_group(s[at], s[at + 1], s[at + 2], s[at + 3], last) {
            Some(more) => {
                let ghost front = bytes@;
                for i in 0..more.len()
                    invariant
                        bytes@ == front + more@.take(i as int),
                {
                    bytes.push(more[i]);
                    assert(bytes@ =~= front + more@.take(i + 1));
                }
                assert(more@.take(more@.len() as int) =~= more@);
            },
            None => {
                proof {
                    lemma_no_bytes(s@, (n + 1) as nat, groups as nat);
                }
                return None;
            },
        }
    }
    Some(bytes)
}

proof fn lemma_no_bytes(s: Seq<char>, n: nat, m: nat)
    requires
        n <= m,
        group_bytes(s, n) is None,
    ensures
        group_bytes(s, m) is None,
    decreases m - n,
{
    if n < m {
        lemma_no_bytes(s, n, (m - 1) as nat);
    }
}

/// `std::str::from_utf8` succeeds on bytes that are valid UTF-8, and on no
/// others.
#[verifier::external_body]
fn is_utf8(bytes: &[u8]) -> (r: bool)
    ensures
        r == valid_utf8(bytes@),
{
    std::str::from_utf8(bytes).is_ok()
}

/// The number that four bytes from `at` on write, the lowest byte first.
pub open spec fn word(b: Seq<u8>, at: int) -> int {
    b[at] + 256 * b[at + 1] + 65536 * b[at + 2] + 16777216 * b[at + 3]
}

fn read_word(b: &Vec<u8>, at: usize) -> (r: u64)
    requires
        at + 4 <= b@.len(),
    ensures
        r == word(b@, at as int),
        r < 0x1_0000_0000,
{
    assert(b@.len() <= usize::MAX) by {
        vstd::std_specs::vec::axiom_spec_len(b);
    }
    let b0: u64 = b[at] as u64;
    let b1: u64 = b[at + 1] as u64;
    let b2: u64 = b[at + 2] as u64;
    let b3: u64 = b[at + 3] as u64;
    b0 + 256 * b1 + 65536 * b2 + 16777216 * b3
}

/// The number of units of the trie.
pub open spec fn unit_count(b: Seq<u8>) -> int {
    word(b, 0) / 4
}

/// The unit at place `p` of the trie.
pub open spec fn unit(b: Seq<u8>, p: int) -> int {
    word(b, 4 + 4 * p)
}

/// The offset of a unit.
pub open spec fn offset(u: int) -> int {
    (u / 1024) * if (u / 512) % 2 == 1 {
        256int
    } else {
        1
    }
}

/// The place at which the children of the unit `u` at place `p` are found.
pub open spec fn target(p: int, u: int) -> int {
    ((p as u64) ^ (offset(u) as u64)) as int
}

/// The replacements, behind the trie.
pub open spec fn replacements(b: Seq<u8>) -> Seq<u8> {
    b.skip(4 + 4 * unit_count(b))
}

/// Whether a replacement can start at `at`: at the end, or where a character
/// starts.
pub open spec fn starts_text(texts: Seq<u8>, at: int) -> bool {
    at == texts.len() || (0 <= at < texts.len() && !is_continuation_byte(texts[at]))
}

/// The unit at place `p` leads into the trie, and its value into the
/// replacements. A unit that is itself a value, which its highest bit says, is
/// led to, but never led from.
pub open spec fn unit_usable(b: Seq<u8>, p: int) -> bool {
    let u = unit(b, p);
    p != 0 && u >= 0x8000_0000 || {
        let q = target(p, u);
        &&& q < unit_count(b)
        &&& (u / 256) % 2 == 1 ==> starts_text(replacements(b), unit(b, q) % 0x8000_0000)
    }
}

/// The trie is there, in whole blocks of 256 units, all its units lead into it,
/// and the replacements are text.
pub open spec fn map_usable(b: Seq<u8>) -> bool {
    &&& b.len() >= 4
    &&& unit_count(b) > 0
    &&& unit_count(b) % 256 == 0
    &&& b.len() >= 4 + 4 * unit_count(b)
    &&& valid_utf8(replacements(b))
    &&& forall|p: int| 0 <= p < unit_count(b) ==> #[trigger] unit_usable(b, p)
}

/// A base64 text that holds a usable map.
pub open spec fn charmap_usable(s: Seq<char>) -> bool {
    base64_bytes(s) matches Some(b) && map_usable(b)
}

fn check_unit(b: &Vec<u8>, count: usize, texts: &[u8], p: usize) -> (r: bool)
    requires
        b@.len() >= 4 + 4 * count,
        count == unit_count(b@),
        count < 0x4000_0000,
        texts@ == replacements(b@),
        p < count,
    ensures
        r == unit_usable(b@, p as int),
{
    let u: u64 = read_word(b, 4 + 4 * p);
    if p != 0 && u >= 0x8000_0000 {
        return true;
    }
    let wide: u64 = if (u / 512) % 2 == 1 {
        256
    } else {
        1
    };
    assert((u / 1024) * wide <= 0x40_0000 * 256) by (nonlinear_arith)
        requires
            u < 0x1_0000_0000,
            wide <= 256,
    ;
    let q: u64 = (p as u64) ^ ((u / 1024) * wide);
    assert(q == target(p as int, u as int));
    if q >= count as u64 {
        return false;
    }
    if (u / 256) % 2 != 1 {
        return true;
    }
    let value: u64 = read_word(b, 4 + 4 * (q as usize)) % 0x8000_0000;
    let total: u64 = texts.len() as u64;
    if value >= total {
        return value == total;
    }
    let byte: u8 = texts[value as usize];
    !(0x80 <= byte && byte <= 0xbf)
}

/// Whether a base64 text holds a usable map.
pub fn check_charmap(text: &str) -> (r: bool)
    ensures
        r == charmap_usable(text@),
{
    let b: Vec<u8> = match decode_base64(text) {
        Some(b) => b,
        None => {
            return false;
        },
    };
    if b.len() < 4 {
        return false;
    }
    let count: usize = (read_word(&b, 0) / 4) as usize;
    if count == 0 || count % 256 != 0 || (b.len() - 4) / 4 < count {
        return false;
    }
    let texts = vstd::slice::slice_subrange(b.as_slice(), 4 + 4 * count, b.len());
    assert(texts@ =~= replacements(b@));
    if !is_utf8(texts) {
        return false;
    }
    for p in 0..count
        invariant
            b@.len() >= 4 + 4 * count,
            count == unit_count(b@),
            count < 0x4000_0000,
            texts@ == replacements(b@),
            base64_bytes(text@) == Some(b@),
            forall|k: int| 0 <= k < p ==> #[trigger] unit_usable(b@, k),
    {
        if !check_unit(&b, count, texts, p) {
            assert(!unit_usable(b@, p as int));
            return false;
        }
    }
    true
}

/// The digits of base64 count from zero in the order of its alphabet, and nothing
/// else is a digit.
pub proof fn law_digits_follow_the_alphabet(i: int, c: char)
    requires
        0 <= i < 64,
    ensures
        sextet("ABCDEFGHIJKLMNOPQRSTUVWXYZabcdefghijklmnopqrstuvwxyz0123456789+/"@[i]) == Some(i as u8),
        sextet(c) matches Some(v) ==> v < 64
            && "ABCDEFGHIJKLMNOPQRSTUVWXYZabcdefghijklmnopqrstuvwxyz0123456789+/"@[v as int] == c,
{
    reveal_strlit("ABCDEFGHIJKLMNOPQRSTUVWXYZabcdefghijklmnopqrstuvwxyz0123456789+/");
}

/// Four digits write three bytes: the number that the digits write in base 64 is
/// the one that the bytes write in base 256.
pub proof fn law_four_digits_write_three_bytes(a: char, b: char, c: char, d: char, last: bool)
    requires
        sextet(a) is Some,
        sextet(b) is Some,
        sextet(c) is Some,
        sextet(d) is Some,
    ensures
        group(a, b, c, d, last) is Some,
        ({
            let bytes = group(a, b, c, d, last).unwrap();
            &&& bytes.len() == 3
            &&& 65536 * bytes[0] + 256 * bytes[1] + bytes[2] == 64 * (64 * (64
                * sextet(a).unwrap() + sextet(b).unwrap()) + sextet(c).unwrap()) + sextet(
                d,
            ).unwrap()
        }),
{
    let v = sextet(a).unwrap();
    let w = sextet(b).unwrap();
    let x = sextet(c).unwrap();
    let y = sextet(d).unwrap();
    assert(v < 64 && w < 64 && x < 64 && y < 64);
    assert(w == 16 * (w / 16) + w % 16);
    assert(x == 4 * (x / 4) + x % 4);
}

} // verus!
