//! Reading numbers and booleans out of text and bytes: decimal and
//! hexadecimal integer syntax (optional sign, then digits), little-endian
//! byte strings, and the words `true` and `false` in any ASCII case.
use vstd::prelude::*;

verus! {

/// The largest magnitude that can matter for a 64-bit result.
pub open spec fn magnitude_bound() -> nat {
    0x1_0000_0000_0000_0000
}

/// The value of one digit in the given radix (letters in either case stand
/// for 10 and up).
pub open spec fn digit_value(c: char, radix: nat) -> Option<nat> {
    let d: int = if '0' <= c <= '9' {
        c as int - '0' as int
    } else if 'a' <= c <= 'z' {
        c as int - 'a' as int + 10
    } else if 'A' <= c <= 'Z' {
        c as int - 'A' as int + 10
    } else {
        radix as int
    };
    if 0 <= d < radix {
        Some(d as nat)
    } else {
        None
    }
}

/// The value of a string of digits, most significant first; `None` when a
/// character is not a digit.  The empty string is worth 0.
pub open spec fn digits_value(s: Seq<char>, radix: nat) -> Option<nat>
    decreases s.len(),
{
    if s.len() == 0 {
        Some(0)
    } else {
        match (digits_value(s.drop_last(), radix), digit_value(s.last(), radix)) {
            (Some(a), Some(d)) => Some(a * radix + d),
            _ => None,
        }
    }
}

/// The digits of an unsigned body: in radix 16 a leading `0x` or `0X` is
/// allowed before them.
pub open spec fn body_digits(b: Seq<char>, radix: nat) -> Seq<char> {
    if radix == 16 && b.len() >= 2 && b[0] == '0' && (b[1] == 'x' || b[1] == 'X') {
        b.skip(2)
    } else {
        b
    }
}

/// The value of an unsigned body: at least one digit.
pub open spec fn body_value(b: Seq<char>, radix: nat) -> Option<nat> {
    if body_digits(b, radix).len() == 0 {
        None
    } else {
        digits_value(body_digits(b, radix), radix)
    }
}

/// Integer syntax: an optional `+` (or `-` when `signed`), then the body.
pub open spec fn parse_integer(s: Seq<char>, radix: nat, signed: bool) -> Option<int> {
    if s.len() == 0 {
        None
    } else if s[0] == '+' || (signed && s[0] == '-') {
        match body_value(s.drop_first(), radix) {
            Some(v) => Some(if s[0] == '-' { -v } else { v as int }),
            None => None,
        }
    } else {
        match body_value(s, radix) {
            Some(v) => Some(v as int),
            None => None,
        }
    }
}

/// The decimal digit for `d` (below 10).
pub open spec fn digit_char(d: nat) -> char {
    if d == 0 {
        '0'
    } else if d == 1 {
        '1'
    } else if d == 2 {
        '2'
    } else if d == 3 {
        '3'
    } else if d == 4 {
        '4'
    } else if d == 5 {
        '5'
    } else if d == 6 {
        '6'
    } else if d == 7 {
        '7'
    } else if d == 8 {
        '8'
    } else {
        '9'
    }
}

/// The decimal rendering of a number, without leading zeros (what
/// `to_string` gives).
pub open spec fn decimal_digits(v: nat) -> Seq<char>
    decreases v,
{
    if v < 10 {
        seq![digit_char(v)]
    } else {
        decimal_digits(v / 10).push(digit_char(v % 10))
    }
}

/// The decimal rendering of a signed number: a `-` before the digits of a
/// negative one.
pub open spec fn decimal_text(n: int) -> Seq<char> {
    if n < 0 {
        seq!['-'] + decimal_digits((-n) as nat)
    } else {
        decimal_digits(n as nat)
    }
}

proof fn lemma_digit_char(d: nat)
    requires
        d < 10,
    ensures
        digit_value(digit_char(d), 10) == Some(d),
{
}

/// A decimal rendering is a non-empty string of digits worth the number.
pub proof fn lemma_decimal_round_trip(v: nat)
    ensures
        decimal_digits(v).len() >= 1,
        digit_value(decimal_digits(v)[0], 10) is Some,
        digits_value(decimal_digits(v), 10) == Some(v),
    decreases v,
{
    if v < 10 {
        lemma_digit_char(v);
        let s = decimal_digits(v);
        assert(s.drop_last() =~= Seq::<char>::empty());
        assert(s.last() == digit_char(v));
        assert(digits_value(s.drop_last(), 10) == Some(0nat));
        assert(digits_value(s, 10) == Some(v));
    } else {
        lemma_decimal_round_trip(v / 10);
        lemma_digit_char(v % 10);
        let t = decimal_digits(v / 10);
        let s = decimal_digits(v);
        assert(s.drop_last() =~= t);
        assert(s.last() == digit_char(v % 10));
        assert(s[0] == t[0]);
        assert((v / 10) * 10 + v % 10 == v);
        assert(digits_value(s.drop_last(), 10) == Some(v / 10));
        assert(digit_value(s.last(), 10) == Some(v % 10));
        assert(digits_value(s, 10) == Some((v / 10) * 10 + v % 10));
    }
}

/// What parsing `s` as an `i64` in the given radix yields.
pub open spec fn parsed_i64(s: Seq<char>, radix: nat) -> Option<i64> {
    match parse_integer(s, radix, true) {
        Some(v) => if i64::MIN <= v <= i64::MAX { Some(v as i64) } else { None },
        None => None,
    }
}

/// What parsing `s` as a `u64` in the given radix yields.
pub open spec fn parsed_u64(s: Seq<char>, radix: nat) -> Option<u64> {
    match parse_integer(s, radix, false) {
        Some(v) => if 0 <= v <= u64::MAX { Some(v as u64) } else { None },
        None => None,
    }
}

/// A prefix of a valid digit string is valid and worth no more.
pub proof fn lemma_digits_prefix(s: Seq<char>, k: int, radix: nat)
    requires
        0 <= k <= s.len(),
        radix > 0,
        digits_value(s, radix) is Some,
    ensures
        digits_value(s.subrange(0, k), radix) is Some,
        digits_value(s.subrange(0, k), radix)->Some_0 <= digits_value(s, radix)->Some_0,
    decreases s.len(),
{
    if k == s.len() {
        assert(s.subrange(0, k) =~= s);
    } else {
        let t = s.drop_last();
        lemma_digits_prefix(t, k, radix);
        assert(t.subrange(0, k) =~= s.subrange(0, k));
        let a = digits_value(t, radix)->Some_0;
        let d = digit_value(s.last(), radix)->Some_0;
        assert(a * radix + d >= a) by (nonlinear_arith)
            requires
                radix > 0,
                d >= 0,
                a >= 0,
        ;
    }
}

/// The characters of a string, one by one.
pub fn chars_of(s: &str) -> (r: Vec<char>)
    ensures
        r@ == s@,
{
    let mut r: Vec<char> = Vec::new();
    for c in it: s.chars()
        invariant
            r@ == it.seq().take(it.index() as int),
            it.seq() == s@,
    {
        r.push(c);
    }
    r
}

/// The value of digit `c` in `radix` (10 or 16).
pub fn digit_of(c: char, radix: u32) -> (r: Option<u32>)
    requires
        radix == 10 || radix == 16,
    ensures
        r matches Some(d) ==> digit_value(c, radix as nat) == Some(d as nat),
        r is None ==> digit_value(c, radix as nat) is None,
{
    let code = c as u32;
    let d: u32 = if '0' <= c && c <= '9' {
        code - ('0' as u32)
    } else if 'a' <= c && c <= 'z' {
        code - ('a' as u32) + 10
    } else if 'A' <= c && c <= 'Z' {
        code - ('A' as u32) + 10
    } else {
        radix
    };
    if d < radix {
        Some(d)
    } else {
        None
    }
}

/// The value of the digits `cs[start..]`, when they are all digits and the
/// value is at most 2^64; `None` otherwise.
pub fn digits_magnitude(cs: &Vec<char>, start: usize, radix: u32) -> (r: Option<u128>)
    requires
        start <= cs@.len(),
        radix == 10 || radix == 16,
    ensures
        r == (match digits_value(cs@.subrange(start as int, cs@.len() as int), radix as nat) {
            Some(v) => if v <= magnitude_bound() { Some(v as u128) } else { None::<u128> },
            None => None::<u128>,
        }),
{
    let n = cs.len();
    let ghost full = cs@.subrange(start as int, n as int);
    let mut acc: u128 = 0;
    let mut i: usize = start;
    proof {
        assert(cs@.subrange(start as int, start as int) =~= Seq::<char>::empty());
    }
    while i < n
        invariant
            n == cs@.len(),
            start <= i <= n,
            radix == 10 || radix == 16,
            full == cs@.subrange(start as int, n as int),
            digits_value(cs@.subrange(start as int, i as int), radix as nat) == Some(acc as nat),
            acc <= magnitude_bound(),
        decreases n - i,
    {
        let ghost prefix = cs@.subrange(start as int, i as int + 1);
        proof {
            assert(prefix.drop_last() =~= cs@.subrange(start as int, i as int));
            assert(prefix.last() == cs@[i as int]);
            assert(full.subrange(0, i - start + 1) =~= prefix);
        }
        match digit_of(cs[i], radix) {
            None => {
                proof {
                    if digits_value(full, radix as nat) is Some {
                        lemma_digits_prefix(full, i - start + 1, radix as nat);
                    }
                }
                return None;
            },
            Some(d) => {
                assert(acc * (radix as u128) <= 16 * magnitude_bound()) by (nonlinear_arith)
                    requires
                        acc <= magnitude_bound(),
                        radix <= 16,
                ;
                let next = acc * (radix as u128) + (d as u128);
                if next > 0x1_0000_0000_0000_0000u128 {
                    proof {
                        if digits_value(full, radix as nat) is Some {
                            lemma_digits_prefix(full, i - start + 1, radix as nat);
                        }
                    }
                    return None;
                }
                acc = next;
                i = i + 1;
            },
        }
    }
    proof {
        assert(cs@.subrange(start as int, n as int) =~= full);
    }
    Some(acc)
}

/// The value of the body `cs[start..]` when it is valid and at most 2^64;
/// `None` otherwise.
fn body_magnitude(cs: &Vec<char>, start: usize, radix: u32) -> (r: Option<u128>)
    requires
        start <= cs@.len(),
        radix == 10 || radix == 16,
    ensures
        r == (match body_value(cs@.subrange(start as int, cs@.len() as int), radix as nat) {
            Some(v) => if v <= magnitude_bound() { Some(v as u128) } else { None::<u128> },
            None => None::<u128>,
        }),
{
    let n = cs.len();
    let ghost b = cs@.subrange(start as int, n as int);
    if radix == 16 && n - start >= 2 && cs[start] == '0' && (cs[start + 1] == 'x' || cs[start + 1] == 'X') {
        proof {
            assert(b[0] == '0');
            assert(b.skip(2) =~= cs@.subrange(start + 2, n as int));
        }
        if n - start == 2 {
            return None;
        }
        digits_magnitude(cs, start + 2, radix)
    } else {
        if n == start {
            return None;
        }
        proof {
            if radix == 16 && b.len() >= 2 {
                assert(b[0] == cs@[start as int]);
                assert(b[1] == cs@[start + 1]);
            }
        }
        digits_magnitude(cs, start, radix)
    }
}

/// Parse `s` as an `i64`: an optional sign, then digits in radix 10, or in
/// radix 16 after an optional `0x`.
pub fn parse_i64(s: &str, radix: u32) -> (r: Option<i64>)
    requires
        radix == 10 || radix == 16,
    ensures
        r == parsed_i64(s@, radix as nat),
{
    let cs = chars_of(s);
    let n = cs.len();
    if n == 0 {
        return None;
    }
    let first = cs[0];
    let signed = first == '+' || first == '-';
    let start: usize = if signed { 1 } else { 0 };
    proof {
        assert(cs@.subrange(1, n as int) =~= s@.drop_first());
        assert(cs@.subrange(0, n as int) =~= s@);
    }
    match body_magnitude(&cs, start, radix) {
        None => None,
        Some(m) => {
            if first == '-' {
                if m <= 0x8000_0000_0000_0000u128 {
                    let v: i128 = 0i128 - (m as i128);
                    Some(v as i64)
                } else {
                    None
                }
            } else if m <= 0x7fff_ffff_ffff_ffffu128 {
                Some(m as i64)
            } else {
                None
            }
        },
    }
}

/// Parse `s` as a `u64`: an optional `+`, then digits in radix 10, or in
/// radix 16 after an optional `0x`.
pub fn parse_u64(s: &str, radix: u32) -> (r: Option<u64>)
    requires
        radix == 10 || radix == 16,
    ensures
        r == parsed_u64(s@, radix as nat),
{
    let cs = chars_of(s);
    let n = cs.len();
    if n == 0 {
        return None;
    }
    let start: usize = if cs[0] == '+' { 1 } else { 0 };
    proof {
        assert(cs@.subrange(1, n as int) =~= s@.drop_first());
        assert(cs@.subrange(0, n as int) =~= s@);
    }
    match body_magnitude(&cs, start, radix) {
        None => None,
        Some(m) => {
            if m <= 0xffff_ffff_ffff_ffffu128 {
                Some(m as u64)
            } else {
                None
            }
        },
    }
}

/// The unsigned value of bytes in little-endian order.
pub open spec fn le_value(b: Seq<u8>) -> nat
    decreases b.len(),
{
    if b.len() == 0 {
        0
    } else {
        b[0] as nat + 256 * le_value(b.drop_first())
    }
}

/// 256 to the power `k`.
pub open spec fn pow256(k: nat) -> nat
    decreases k,
{
    if k == 0 {
        1
    } else {
        256 * pow256((k - 1) as nat)
    }
}

/// The `k` bytes, least significant first, of a number below 256^k (what
/// `to_le_bytes` gives).
pub open spec fn le_encode(v: nat, k: nat) -> Seq<u8>
    decreases k,
{
    if k == 0 {
        Seq::empty()
    } else {
        seq![(v % 256) as u8] + le_encode(v / 256, (k - 1) as nat)
    }
}

/// Little-endian bytes read back as the number they encode.
pub proof fn lemma_le_round_trip(v: nat, k: nat)
    requires
        v < pow256(k),
    ensures
        le_encode(v, k).len() == k,
        le_value(le_encode(v, k)) == v,
    decreases k,
{
    if k > 0 {
        let q = v / 256;
        let p = pow256((k - 1) as nat);
        assert(q < p) by (nonlinear_arith)
            requires
                v < 256 * p,
                q == v / 256,
        ;
        lemma_le_round_trip(q, (k - 1) as nat);
        let s = le_encode(v, k);
        assert(s.drop_first() =~= le_encode(q, (k - 1) as nat));
        assert(s[0] == (v % 256) as u8);
    }
}

/// The two's-complement reading of an unsigned value of `bits` bits.
pub open spec fn twos_complement(v: nat, half: nat) -> int {
    if v >= half {
        v - 2 * half
    } else {
        v as int
    }
}

/// The unsigned number that 1, 2, 4 or 8 little-endian bytes hold.
pub open spec fn data_as_unsigned(b: Seq<u8>) -> Option<u64> {
    if b.len() == 1 || b.len() == 2 || b.len() == 4 || b.len() == 8 {
        Some(le_value(b) as u64)
    } else {
        None
    }
}

/// The signed number that 1 byte (read unsigned), or 2, 4 or 8
/// little-endian bytes in two's complement, hold.
pub open spec fn data_as_signed(b: Seq<u8>) -> Option<i64> {
    if b.len() == 1 {
        Some(b[0] as i64)
    } else if b.len() == 2 {
        Some(twos_complement(le_value(b), 0x8000) as i64)
    } else if b.len() == 4 {
        Some(twos_complement(le_value(b), 0x8000_0000) as i64)
    } else if b.len() == 8 {
        Some(twos_complement(le_value(b), 0x8000_0000_0000_0000) as i64)
    } else {
        None
    }
}

/// The little-endian value of 1, 2, 4 or 8 bytes.
pub fn le_bytes_value(d: &Vec<u8>) -> (r: u64)
    requires
        d@.len() == 1 || d@.len() == 2 || d@.len() == 4 || d@.len() == 8,
    ensures
        r as nat == le_value(d@),
        d@.len() == 1 ==> r < 0x100,
        d@.len() == 2 ==> r < 0x1_0000,
        d@.len() == 4 ==> r < 0x1_0000_0000,
{
    let ghost b = d@;
    proof {
        reveal_with_fuel(le_value, 9);
    }
    if d.len() == 1 {
        proof {
            assert(b.drop_first() =~= Seq::<u8>::empty());
        }
        d[0] as u64
    } else if d.len() == 2 {
        proof {
            assert(b.drop_first().drop_first() =~= Seq::<u8>::empty());
        }
        d[0] as u64 + 256 * (d[1] as u64)
    } else if d.len() == 4 {
        proof {
            let t = b.drop_first();
            assert(t.drop_first().drop_first().drop_first() =~= Seq::<u8>::empty());
        }
        d[0] as u64 + 256 * (d[1] as u64 + 256 * (d[2] as u64 + 256 * (d[3] as u64)))
    } else {
        proof {
            let t = b.drop_first();
            assert(t.drop_first().drop_first().drop_first().drop_first().drop_first().drop_first().drop_first()
                =~= Seq::<u8>::empty());
        }
        d[0] as u64 + 256 * (d[1] as u64 + 256 * (d[2] as u64 + 256 * (d[3] as u64 + 256 * (d[4] as u64
            + 256 * (d[5] as u64 + 256 * (d[6] as u64 + 256 * (d[7] as u64)))))))
    }
}

/// The character code with ASCII capitals lowered.
pub open spec fn ascii_lower_code(c: char) -> int {
    if 'A' <= c <= 'Z' {
        c as int + 32
    } else {
        c as int
    }
}

/// `s` spells `word` (given in lower case) in any mix of ASCII cases.
pub open spec fn equals_ignoring_ascii_case(s: Seq<char>, word: Seq<char>) -> bool {
    &&& s.len() == word.len()
    &&& forall|i: int| 0 <= i < s.len() ==> ascii_lower_code(#[trigger] s[i]) == word[i] as int
}

/// The truth value that the words `true` and `false` spell, in any case.
pub open spec fn text_truth(s: Seq<char>) -> Option<bool> {
    if equals_ignoring_ascii_case(s, seq!['t', 'r', 'u', 'e']) {
        Some(true)
    } else if equals_ignoring_ascii_case(s, seq!['f', 'a', 'l', 's', 'e']) {
        Some(false)
    } else {
        None
    }
}

fn char_lower_code(c: char) -> (r: u32)
    ensures
        r as int == ascii_lower_code(c),
{
    if 'A' <= c && c <= 'Z' {
        (c as u32) + 32
    } else {
        c as u32
    }
}

fn char_code(c: char) -> (r: u32)
    ensures
        r as int == c as int,
{
    c as u32
}

fn spells(cs: &Vec<char>, word: &Vec<char>) -> (r: bool)
    ensures
        r == equals_ignoring_ascii_case(cs@, word@),
{
    if cs.len() != word.len() {
        return false;
    }
    let mut i: usize = 0;
    while i < cs.len()
        invariant
            cs@.len() == word@.len(),
            i <= cs@.len(),
            forall|j: int| 0 <= j < i ==> ascii_lower_code(#[trigger] cs@[j]) == word@[j] as int,
        decreases cs@.len() - i,
    {
        if char_lower_code(cs[i]) != char_code(word[i]) {
            return false;
        }
        i = i + 1;
    }
    true
}

/// Read the words `true` and `false`, in any ASCII case.
pub fn parse_truth(s: &str) -> (r: Option<bool>)
    ensures
        r == text_truth(s@),
{
    let cs = chars_of(s);
    let t = vec!['t', 'r', 'u', 'e'];
    let f = vec!['f', 'a', 'l', 's', 'e'];
    assert(t@ =~= seq!['t', 'r', 'u', 'e']);
    assert(f@ =~= seq!['f', 'a', 'l', 's', 'e']);
    if spells(&cs, &t) {
        Some(true)
    } else if spells(&cs, &f) {
        Some(false)
    } else {
        None
    }
}

} // verus!
