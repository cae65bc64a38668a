//! Reading scalars out of attribute and character data.
//!
//! Every routine here works on characters: a `String` is first turned into a
//! vector of `char`, and the scanners take slices of it, so that a field of a
//! long list is read in place.

use vstd::prelude::*;
use vstd::slice::*;
use vstd::std_specs::iter::IteratorSpec;
use vstd::string::*;

verus! {

/// The characters with the Unicode property `White_Space`.
pub open spec fn is_space(c: char) -> bool {
    let u = c as u32;
    (9 <= u && u <= 13) || u == 0x20 || u == 0x85 || u == 0xA0 || u == 0x1680 || (0x2000 <= u && u
        <= 0x200A) || u == 0x2028 || u == 0x2029 || u == 0x202F || u == 0x205F || u == 0x3000
}

/// A text is blank when it holds nothing but white space.
pub open spec fn is_blank(s: Seq<char>) -> bool {
    forall|i: int| 0 <= i < s.len() ==> is_space(#[trigger] s[i])
}

/// The value of `c` as a digit, decimal or hexadecimal (either case).
pub open spec fn digit(c: char, hex: bool) -> Option<nat> {
    let u = c as u32;
    if 0x30 <= u && u <= 0x39 {
        Some((u - 0x30) as nat)
    } else if hex && 0x61 <= u && u <= 0x66 {
        Some((u - 0x61 + 10) as nat)
    } else if hex && 0x41 <= u && u <= 0x46 {
        Some((u - 0x41 + 10) as nat)
    } else {
        None
    }
}

/// The base of the digits: 16 or 10.
pub open spec fn radix(hex: bool) -> nat {
    if hex {
        16
    } else {
        10
    }
}

/// Every character of `s` is a digit.
pub open spec fn all_digits(s: Seq<char>, hex: bool) -> bool {
    forall|i: int| 0 <= i < s.len() ==> (#[trigger] digit(s[i], hex)) is Some
}

/// The number that a string of digits writes, most significant digit first.
pub open spec fn digits_value(s: Seq<char>, hex: bool) -> nat
    decreases s.len(),
{
    if s.len() == 0 {
        0
    } else {
        digits_value(s.drop_last(), hex) * radix(hex) + digit(s.last(), hex).unwrap()
    }
}

/// An unsigned number: an optional `+`, then one digit or more.
pub open spec fn natural(s: Seq<char>, hex: bool) -> Option<nat> {
    let body = if s.len() > 0 && s[0] == '+' {
        s.skip(1)
    } else {
        s
    };
    if body.len() > 0 && all_digits(body, hex) {
        Some(digits_value(body, hex))
    } else {
        None
    }
}

/// A signed decimal number: an optional `+` or `-`, then one digit or more.
pub open spec fn integer(s: Seq<char>) -> Option<int> {
    if s.len() > 0 && s[0] == '-' {
        let body = s.skip(1);
        if body.len() > 0 && all_digits(body, false) {
            Some(-(digits_value(body, false) as int))
        } else {
            None
        }
    } else {
        match natural(s, false) {
            Some(n) => Some(n as int),
            None => None,
        }
    }
}

/// What a text means as an unsigned number of at most `limit`.
pub open spec fn bounded(s: Seq<char>, hex: bool, limit: nat) -> Option<nat> {
    match natural(s, hex) {
        Some(n) => if n <= limit {
            Some(n)
        } else {
            None
        },
        None => None,
    }
}

/// What a text means as an unsigned decimal number of 32 bits.
pub open spec fn u32_text(s: Seq<char>) -> Option<u32> {
    match bounded(s, false, 0xFFFF_FFFF) {
        Some(n) => Some(n as u32),
        None => None,
    }
}

/// What a text means as a signed decimal number of 32 bits.
pub open spec fn i32_text(s: Seq<char>) -> Option<i32> {
    match integer(s) {
        Some(n) => if -0x8000_0000 <= n && n <= 0x7FFF_FFFF {
            Some(n as i32)
        } else {
            None
        },
        None => None,
    }
}

/// Why a text is no signed decimal number of 32 bits.
#[derive(Debug, PartialEq, Eq, Clone, Copy, Structural)]
pub enum IntFault {
    /// The text is empty.
    Empty,
    /// The text holds something else than digits behind its sign, or no
    /// digit at all.
    InvalidDigit,
    /// The text writes a number above the greatest of 32 bits.
    PosOverflow,
    /// The text writes a number below the least of 32 bits.
    NegOverflow,
}

/// What is wrong with a text that is no signed decimal number of 32 bits.
/// The text is read from the left: the digits behind the sign count up to
/// the first character that is no digit, and a number out of range is
/// noticed before that character is.
pub open spec fn int_fault_kind(s: Seq<char>) -> IntFault {
    if s.len() == 0 {
        IntFault::Empty
    } else {
        let digits = if is_sign(s[0]) {
            s.skip(1)
        } else {
            s
        };
        let value = digits_value(digits.take(digit_run(digits, 0)), false);
        if digits.len() == 0 {
            IntFault::InvalidDigit
        } else if s[0] == '-' && value > 0x8000_0000 {
            IntFault::NegOverflow
        } else if s[0] != '-' && value > 0x7FFF_FFFF {
            IntFault::PosOverflow
        } else {
            IntFault::InvalidDigit
        }
    }
}

/// What a text means as a hexadecimal number of 32 bits.
pub open spec fn hex_u32_text(s: Seq<char>) -> Option<u32> {
    match bounded(s, true, 0xFFFF_FFFF) {
        Some(n) => Some(n as u32),
        None => None,
    }
}

/// What a text means as a hexadecimal number of 8 bits.
pub open spec fn hex_u8_text(s: Seq<char>) -> Option<u8> {
    match bounded(s, true, 0xFF) {
        Some(n) => Some(n as u8),
        None => None,
    }
}

/// What a text means as a truth value: `true` or `false`.
pub open spec fn bool_text(s: Seq<char>) -> Option<bool> {
    if s == "true"@ {
        Some(true)
    } else if s == "false"@ {
        Some(false)
    } else {
        None
    }
}

/// Where the run of decimal digits that starts at `from` ends.
pub open spec fn digit_run(s: Seq<char>, from: int) -> int
    decreases s.len() - from,
{
    if 0 <= from && from < s.len() && digit(s[from], false) is Some {
        digit_run(s, from + 1)
    } else {
        from
    }
}

/// A plus or a minus.
pub open spec fn is_sign(c: char) -> bool {
    c == '+' || c == '-'
}

/// `c` is the letter `letter` (given in lower case) in either case.
pub open spec fn is_letter(c: char, letter: char) -> bool {
    c == letter || (c as u32) + 0x20 == letter as u32
}

/// `s` spells `word` (given in lower case), whatever the case of its letters.
pub open spec fn spells(s: Seq<char>, word: Seq<char>) -> bool {
    s.len() == word.len() && forall|i: int|
        0 <= i < s.len() ==> is_letter(#[trigger] s[i], word[i])
}

/// An unsigned decimal number with an optional fraction and exponent:
///
/// ```text
/// Number ::= ( Digit+ | Digit+ '.' Digit* | Digit* '.' Digit+ ) Exp?
/// Exp    ::= ('e' | 'E') Sign? Digit+
/// ```
pub open spec fn is_number(s: Seq<char>) -> bool {
    let whole_end = digit_run(s, 0);
    let dotted = whole_end < s.len() && s[whole_end] == '.';
    let mantissa_end = if dotted {
        digit_run(s, whole_end + 1)
    } else {
        whole_end
    };
    let count = if dotted {
        mantissa_end - 1
    } else {
        mantissa_end
    };
    count > 0 && (mantissa_end == s.len() || (is_letter(s[mantissa_end], 'e') && {
        let start = if mantissa_end + 1 < s.len() && is_sign(s[mantissa_end + 1]) {
            mantissa_end + 2
        } else {
            mantissa_end + 1
        };
        start < s.len() && digit_run(s, start) == s.len()
    }))
}

/// The literals of real numbers: an optional sign, then a number, `inf`,
/// `infinity` or `nan` (these three in any mix of cases).
pub open spec fn is_real(s: Seq<char>) -> bool {
    let body = if s.len() > 0 && is_sign(s[0]) {
        s.skip(1)
    } else {
        s
    };
    is_number(body) || spells(body, "inf"@) || spells(body, "infinity"@) || spells(body, "nan"@)
}

/// Two texts hold the same characters.
pub fn same_text(a: &str, b: &str) -> (same: bool)
    ensures
        same == (a@ == b@),
{
    let x = a.as_bytes();
    let y = b.as_bytes();
    proof {
        vstd::utf8::encode_utf8_decode_utf8(a@);
        vstd::utf8::encode_utf8_decode_utf8(b@);
    }
    if x.len() != y.len() {
        return false;
    }
    let mut i: usize = 0;
    while i < x.len()
        invariant
            i <= x.len(),
            x.len() == y.len(),
            x@ == a.spec_bytes(),
            y@ == b.spec_bytes(),
            forall|k: int| 0 <= k < i ==> x@[k] == y@[k],
        decreases x.len() - i,
    {
        if x[i] != y[i] {
            return false;
        }
        i += 1;
    }
    assert(x@ =~= y@);
    true
}

/// The characters of a text, in order.
pub fn chars_of(s: &str) -> (chars: Vec<char>)
    ensures
        chars@ == s@,
{
    broadcast use vstd::string::group_string_axioms;

    let mut it = s.chars();
    let mut chars: Vec<char> = Vec::new();
    loop
        invariant
            it.obeys_prophetic_iter_laws(),
            chars@ + it.remaining() == s@,
        ensures
            chars@ == s@,
        decreases s@.len() - chars@.len(),
    {
        match it.next() {
            Some(c) => {
                chars.push(c);
            },
            None => {
                break ;
            },
        }
    }
    chars
}

/// Whether a character is white space.
pub fn char_is_space(c: char) -> (yes: bool)
    ensures
        yes == is_space(c),
{
    let u: u32 = c as u32;
    (9 <= u && u <= 13) || u == 0x20 || u == 0x85 || u == 0xA0 || u == 0x1680 || (0x2000 <= u && u
        <= 0x200A) || u == 0x2028 || u == 0x2029 || u == 0x202F || u == 0x205F || u == 0x3000
}

/// Whether a text holds nothing but white space.
pub fn text_is_blank(s: &[char]) -> (yes: bool)
    ensures
        yes == is_blank(s@),
{
    let mut i: usize = 0;
    while i < s.len()
        invariant
            i <= s.len(),
            forall|k: int| 0 <= k < i ==> is_space(#[trigger] s@[k]),
        decreases s.len() - i,
    {
        if !char_is_space(s[i]) {
            return false;
        }
        i += 1;
    }
    true
}

fn digit_of(c: char, hex: bool) -> (d: Option<u64>)
    ensures
        match d {
            Some(v) => digit(c, hex) == Some(v as nat) && v < radix(hex),
            None => digit(c, hex) is None,
        },
{
    let u: u32 = c as u32;
    if 0x30 <= u && u <= 0x39 {
        Some((u - 0x30) as u64)
    } else if hex && 0x61 <= u && u <= 0x66 {
        Some((u - 0x61 + 10) as u64)
    } else if hex && 0x41 <= u && u <= 0x46 {
        Some((u - 0x41 + 10) as u64)
    } else {
        None
    }
}

/// The value of a string of digits, where it is at most `limit`.
fn digits_upto(s: &[char], hex: bool, limit: u64) -> (value: Option<u64>)
    requires
        limit <= 0xFFFF_FFFF,
    ensures
        value == (if all_digits(s@, hex) && digits_value(s@, hex) <= limit {
            Some(digits_value(s@, hex) as u64)
        } else {
            None
        }),
{
    let base: u64 = if hex {
        16
    } else {
        10
    };
    let mut acc: u64 = 0;
    let mut over = false;
    let mut i: usize = 0;
    assert(s@.take(0) =~= Seq::<char>::empty());
    while i < s.len()
        invariant
            i <= s.len(),
            limit <= 0xFFFF_FFFF,
            base == radix(hex),
            all_digits(s@.take(i as int), hex),
            !over ==> acc == digits_value(s@.take(i as int), hex) && acc <= limit,
            over ==> digits_value(s@.take(i as int), hex) > limit,
        decreases s.len() - i,
    {
        let ghost before = s@.take(i as int);
        let ghost after = s@.take(i + 1);
        assert(after.drop_last() =~= before);
        assert(after.last() == s@[i as int]);
        match digit_of(s[i], hex) {
            None => {
                assert(digit(s@[i as int], hex) is None);
                return None;
            },
            Some(d) => {
                assert(all_digits(after, hex)) by {
                    assert forall|k: int| 0 <= k < after.len() implies (#[trigger] digit(
                        after[k],
                        hex,
                    )) is Some by {
                        if k < i {
                            assert(after[k] == before[k]);
                        }
                    }
                }
                let ghost v = digits_value(before, hex);
                assert(digits_value(after, hex) == v * radix(hex) + d);
                if !over {
                    let next = acc * base + d;
                    if next > limit {
                        over = true;
                    } else {
                        acc = next;
                    }
                } else {
                    assert(v * radix(hex) + d > limit) by (nonlinear_arith)
                        requires
                            v > limit,
                            radix(hex) >= 1,
                            d >= 0,
                    ;
                }
            },
        }
        i += 1;
    }
    assert(s@.take(i as int) =~= s@);
    if over {
        None
    } else {
        Some(acc)
    }
}

/// Reads an unsigned number of at most `limit`.
fn natural_upto(s: &[char], hex: bool, limit: u64) -> (value: Option<u64>)
    requires
        limit <= 0xFFFF_FFFF,
    ensures
        value == match bounded(s@, hex, limit as nat) {
            Some(n) => Some(n as u64),
            None => None,
        },
{
    let start: usize = if s.len() > 0 && s[0] == '+' {
        1
    } else {
        0
    };
    let body = slice_subrange(s, start, s.len());
    assert(body@ =~= if start == 1 {
        s@.skip(1)
    } else {
        s@
    });
    if body.len() == 0 {
        return None;
    }
    digits_upto(body, hex, limit)
}

/// Reads an unsigned decimal number of 32 bits.
pub fn parse_u32(s: &[char]) -> (value: Option<u32>)
    ensures
        value == u32_text(s@),
{
    match natural_upto(s, false, 0xFFFF_FFFF) {
        Some(n) => Some(n as u32),
        None => None,
    }
}

/// Reads a hexadecimal number of 32 bits.
pub fn parse_hex_u32(s: &[char]) -> (value: Option<u32>)
    ensures
        value == hex_u32_text(s@),
{
    match natural_upto(s, true, 0xFFFF_FFFF) {
        Some(n) => Some(n as u32),
        None => None,
    }
}

/// Reads a hexadecimal number of 8 bits.
pub fn parse_hex_u8(s: &[char]) -> (value: Option<u8>)
    ensures
        value == hex_u8_text(s@),
{
    match natural_upto(s, true, 0xFF) {
        Some(n) => Some(n as u8),
        None => None,
    }
}

/// Reads a signed decimal number of 32 bits.
pub fn parse_i32(s: &[char]) -> (value: Option<i32>)
    ensures
        value == i32_text(s@),
{
    if s.len() > 0 && s[0] == '-' {
        let body = slice_subrange(s, 1, s.len());
        assert(body@ =~= s@.skip(1));
        if body.len() == 0 {
            return None;
        }
        match digits_upto(body, false, 0x8000_0000) {
            Some(n) => {
                if n == 0x8000_0000 {
                    Some(i32::MIN)
                } else {
                    Some(-(n as i32))
                }
            },
            None => None,
        }
    } else {
        match natural_upto(s, false, 0x7FFF_FFFF) {
            Some(n) => Some(n as i32),
            None => None,
        }
    }
}

/// Reads a truth value.
pub fn parse_bool(s: &str) -> (value: Option<bool>)
    ensures
        value == bool_text(s@),
{
    if same_text(s, "true") {
        Some(true)
    } else if same_text(s, "false") {
        Some(false)
    } else {
        None
    }
}

/// Where the run of decimal digits that starts at `from` ends.
fn run_of_digits(s: &[char], from: usize) -> (end: usize)
    requires
        from <= s.len(),
    ensures
        end == digit_run(s@, from as int),
        from <= end <= s.len(),
{
    let mut i: usize = from;
    while i < s.len() && digit_of(s[i], false).is_some()
        invariant
            from <= i <= s.len(),
            digit_run(s@, from as int) == digit_run(s@, i as int),
        decreases s.len() - i,
    {
        i += 1;
    }
    i
}

fn sign(c: char) -> (yes: bool)
    ensures
        yes == is_sign(c),
{
    c == '+' || c == '-'
}

fn letter(c: char, wanted: char) -> (yes: bool)
    requires
        0x61 <= wanted as u32 <= 0x7A,
    ensures
        yes == is_letter(c, wanted),
{
    c == wanted || (c as u32) + 0x20 == wanted as u32
}

fn text_is_number(s: &[char]) -> (yes: bool)
    ensures
        yes == is_number(s@),
{
    let whole_end = run_of_digits(s, 0);
    let dotted = whole_end < s.len() && s[whole_end] == '.';
    let mantissa_end = if dotted {
        run_of_digits(s, whole_end + 1)
    } else {
        whole_end
    };
    let count = if dotted {
        mantissa_end - 1
    } else {
        mantissa_end
    };
    if count == 0 {
        return false;
    }
    if mantissa_end == s.len() {
        return true;
    }
    if !letter(s[mantissa_end], 'e') {
        return false;
    }
    let start = if mantissa_end + 1 < s.len() && sign(s[mantissa_end + 1]) {
        mantissa_end + 2
    } else {
        mantissa_end + 1
    };
    start < s.len() && run_of_digits(s, start) == s.len()
}

fn spelt(s: &[char], word: &str) -> (yes: bool)
    requires
        forall|i: int| 0 <= i < word@.len() ==> 0x61 <= (#[trigger] word@[i]) as u32 <= 0x7A,
    ensures
        yes == spells(s@, word@),
{
    let w = chars_of(word);
    if s.len() != w.len() {
        return false;
    }
    let mut i: usize = 0;
    while i < s.len()
        invariant
            i <= s.len(),
            s.len() == w.len(),
            w@ == word@,
            forall|k: int| 0 <= k < word@.len() ==> 0x61 <= (#[trigger] word@[k]) as u32 <= 0x7A,
            forall|k: int| 0 <= k < i ==> is_letter(#[trigger] s@[k], w@[k]),
        decreases s.len() - i,
    {
        if !letter(s[i], w[i]) {
            return false;
        }
        i += 1;
    }
    true
}

/// Whether a text is the literal of a real number.
pub fn text_is_real(s: &[char]) -> (yes: bool)
    ensures
        yes == is_real(s@),
{
    let start: usize = if s.len() > 0 && sign(s[0]) {
        1
    } else {
        0
    };
    let body = slice_subrange(s, start, s.len());
    assert(body@ =~= if start == 1 {
        s@.skip(1)
    } else {
        s@
    });
    proof {
        reveal_strlit("inf");
        reveal_strlit("infinity");
        reveal_strlit("nan");
    }
    text_is_number(body) || spelt(body, "inf") || spelt(body, "infinity") || spelt(body, "nan")
}

/// A run of digits holds digits only.
proof fn lemma_digit_run(s: Seq<char>, from: int)
    requires
        0 <= from <= s.len(),
    ensures
        from <= digit_run(s, from) <= s.len(),
        forall|i: int| from <= i < digit_run(s, from) ==> (#[trigger] digit(s[i], false)) is Some,
    decreases s.len() - from,
{
    if from < s.len() && digit(s[from], false) is Some {
        lemma_digit_run(s, from + 1);
    }
}

/// Says what is wrong with a text that is no signed decimal number of 32
/// bits.
pub fn why_no_i32(s: &[char]) -> (fault: IntFault)
    ensures
        fault == int_fault_kind(s@),
{
    if s.len() == 0 {
        return IntFault::Empty;
    }
    let negative = s[0] == '-';
    let start: usize = if sign(s[0]) {
        1
    } else {
        0
    };
    let digits = slice_subrange(s, start, s.len());
    assert(digits@ =~= if start == 1 {
        s@.skip(1)
    } else {
        s@
    });
    if digits.len() == 0 {
        return IntFault::InvalidDigit;
    }
    let run = run_of_digits(digits, 0);
    let leading = slice_subrange(digits, 0, run);
    proof {
        lemma_digit_run(digits@, 0);
        assert(leading@ =~= digits@.take(run as int));
        assert(all_digits(leading@, false)) by {
            assert forall|i: int| 0 <= i < leading@.len() implies (#[trigger] digit(
                leading@[i],
                false,
            )) is Some by {
                assert(leading@[i] == digits@[i]);
            }
        }
    }
    let limit: u64 = if negative {
        0x8000_0000
    } else {
        0x7FFF_FFFF
    };
    match digits_upto(leading, false, limit) {
        Some(_) => IntFault::InvalidDigit,
        None => if negative {
            IntFault::NegOverflow
        } else {
            IntFault::PosOverflow
        },
    }
}

} // verus!
