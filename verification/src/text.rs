//! Number parsing for configuration values.
//!
//! The accepted syntax is that of the standard library's unsigned
//! `from_str_radix`: an optional leading `+`, then at least one digit of the
//! radix (letters in either case), and a value that fits the target type.
use vstd::prelude::*;

verus! {

/// Value of `c` as a digit in `radix` (at most 36), if it is one.
pub open spec fn digit_value(c: char, radix: nat) -> Option<nat> {
    let n = c as int;
    let v: int = if 48 <= n && n <= 57 {
        n - 48
    } else if 97 <= n && n <= 122 {
        n - 97 + 10
    } else if 65 <= n && n <= 90 {
        n - 65 + 10
    } else {
        radix as int
    };
    if v < radix {
        Some(v as nat)
    } else {
        None
    }
}

/// Value of a digit string read most significant digit first; `None` when a
/// character is not a digit of `radix`. The empty string has value 0.
pub open spec fn digits_value(s: Seq<char>, radix: nat) -> Option<nat>
    decreases s.len(),
{
    if s.len() == 0 {
        Some(0)
    } else {
        match (digits_value(s.drop_last(), radix), digit_value(s.last(), radix)) {
            (Some(high), Some(d)) => Some(high * radix + d),
            _ => None,
        }
    }
}

/// The digits after an optional single leading `+`.
pub open spec fn unsigned_digits(s: Seq<char>) -> Seq<char> {
    if s.len() > 0 && s[0] == '+' {
        s.drop_first()
    } else {
        s
    }
}

/// Unsigned number in `radix` that is at most `max`, as the standard library
/// reads it; `None` where it reports an error.
pub open spec fn parse_unsigned(s: Seq<char>, radix: nat, max: nat) -> Option<nat> {
    let digits = unsigned_digits(s);
    if digits.len() == 0 {
        None
    } else {
        match digits_value(digits, radix) {
            Some(v) => if v <= max {
                Some(v)
            } else {
                None
            },
            None => None,
        }
    }
}

/// `s` with every leading repetition of `0x` removed.
pub open spec fn strip_hex_prefix(s: Seq<char>) -> Seq<char>
    decreases s.len(),
{
    if s.len() >= 2 && s[0] == '0' && s[1] == 'x' {
        strip_hex_prefix(s.subrange(2, s.len() as int))
    } else {
        s
    }
}

/// A hotkey value: hexadecimal after leading `0x` prefixes, fitting a `u32`.
pub open spec fn hotkey_value(s: Seq<char>) -> Option<nat> {
    parse_unsigned(strip_hex_prefix(s), 16, 0xffff_ffff)
}

/// A player count: decimal, fitting a `u8`.
pub open spec fn player_count_value(s: Seq<char>) -> Option<nat> {
    parse_unsigned(s, 10, 0xff)
}

/// The lower-case digit character for `d`: `0`–`9`, then `a`–`z`.
pub open spec fn digit_char(d: nat) -> char {
    if d < 10 {
        (48 + d) as char
    } else {
        (87 + d) as char
    }
}

/// The upper-case letter for a digit `d` from 10 on: `A`–`Z`.
pub open spec fn upper_digit_char(d: nat) -> char {
    (55 + d) as char
}

/// The digits of `n` in `radix`, most significant first, without leading
/// zeros.
pub open spec fn number_digits(n: nat, radix: nat) -> Seq<char>
    decreases n,
{
    if radix < 2 || n < radix {
        seq![digit_char(n)]
    } else {
        proof {
            vstd::arithmetic::div_mod::lemma_div_decreases(n as int, radix as int);
        }
        number_digits(n / radix, radix).push(digit_char(n % radix))
    }
}

/// Law: each digit character stands for its digit in every radix above it,
/// in either case: `0`–`9` for 0–9, `a`–`z` and `A`–`Z` for 10–35.
pub proof fn lemma_digit_chars(d: nat, radix: nat)
    requires
        d < radix <= 36,
    ensures
        digit_value(digit_char(d), radix) == Some(d),
        d >= 10 ==> digit_value(upper_digit_char(d), radix) == Some(d),
{
    assert(((48 + d) as char) as int == 48 + d);
    assert(((87 + d) as char) as int == 87 + d);
    assert(((55 + d) as char) as int == 55 + d);
}

proof fn lemma_digit_char_code(d: nat)
    requires
        d < 36,
    ensures
        d < 10 ==> digit_char(d) as int == 48 + d,
        d >= 10 ==> digit_char(d) as int == 87 + d,
{
    assert(((48 + d) as char) as int == 48 + d);
    assert(((87 + d) as char) as int == 87 + d);
}

proof fn lemma_number_digits_value(n: nat, radix: nat)
    requires
        2 <= radix <= 36,
    ensures
        digits_value(number_digits(n, radix), radix) == Some(n),
        number_digits(n, radix).len() > 0,
        number_digits(n, radix)[0] != '+',
    decreases n,
{
    assert(digits_value(Seq::<char>::empty(), radix) == Some(0nat));
    if n < radix {
        lemma_digit_chars(n, radix);
        lemma_digit_char_code(n);
        let s = seq![digit_char(n)];
        assert(number_digits(n, radix) == s);
        assert(s.drop_last() =~= Seq::<char>::empty());
        assert(s.last() == digit_char(n));
        assert(digits_value(s, radix) == Some(0 * radix + n));
    } else {
        vstd::arithmetic::div_mod::lemma_div_decreases(n as int, radix as int);
        lemma_number_digits_value(n / radix, radix);
        let d = n % radix;
        vstd::arithmetic::div_mod::lemma_fundamental_div_mod(n as int, radix as int);
        assert(d < radix) by (nonlinear_arith)
            requires
                radix > 0,
                d == n % radix,
        ;
        lemma_digit_chars(d, radix);
        let s = number_digits(n, radix);
        let high = number_digits(n / radix, radix);
        assert(s == high.push(digit_char(d)));
        assert(s.drop_last() =~= high);
        assert(s.last() == digit_char(d));
        assert(s[0] == high[0]);
        assert((n / radix) * radix + d == n) by (nonlinear_arith)
            requires
                n == radix * (n / radix) + d,
        ;
        assert(digits_value(s, radix) == Some((n / radix) * radix + d));
    }
}

/// Law: every number up to `max`, written in `radix` (2 to 36), is read back
/// as itself.
pub proof fn lemma_number_round_trip(n: nat, radix: nat, max: nat)
    requires
        2 <= radix <= 36,
        n <= max,
    ensures
        parse_unsigned(number_digits(n, radix), radix, max) == Some(n),
{
    lemma_number_digits_value(n, radix);
}

/// Law: a hotkey written in hexadecimal, with or without a `0x` prefix, is
/// read as its value.
pub proof fn lemma_hotkey_round_trip(n: nat)
    requires
        n <= 0xffff_ffff,
    ensures
        hotkey_value(number_digits(n, 16)) == Some(n),
        hotkey_value(seq!['0', 'x'] + number_digits(n, 16)) == Some(n),
{
    let s = number_digits(n, 16);
    lemma_number_digits_value(n, 16);
    lemma_number_round_trip(n, 16, 0xffff_ffff);
    let p = seq!['0', 'x'] + s;
    assert(p.subrange(2, p.len() as int) =~= s);
    lemma_no_hex_prefix(n);
}

proof fn lemma_hex_digits_have_no_x(n: nat)
    ensures
        forall|i: int| 0 <= i < number_digits(n, 16).len() ==> #[trigger] number_digits(n, 16)[i]
            != 'x',
    decreases n,
{
    let s = number_digits(n, 16);
    if n < 16 {
        lemma_digit_char_code(n);
        assert(s == seq![digit_char(n)]);
    } else {
        vstd::arithmetic::div_mod::lemma_div_decreases(n as int, 16);
        lemma_hex_digits_have_no_x(n / 16);
        let high = number_digits(n / 16, 16);
        let d = n % 16;
        lemma_digit_char_code(d);
        assert(s == high.push(digit_char(d)));
        assert forall|i: int| 0 <= i < s.len() implies #[trigger] s[i] != 'x' by {
            if i < high.len() {
                assert(s[i] == high[i]);
            }
        }
    }
}

proof fn lemma_no_hex_prefix(n: nat)
    ensures
        strip_hex_prefix(number_digits(n, 16)) == number_digits(n, 16),
{
    let s = number_digits(n, 16);
    lemma_hex_digits_have_no_x(n);
    if s.len() >= 2 {
        assert(s[1] != 'x');
    }
}

/// Law: a player count written in decimal is read as its value.
pub proof fn lemma_player_count_round_trip(n: nat)
    requires
        n <= 0xff,
    ensures
        player_count_value(number_digits(n, 10)) == Some(n),
{
    lemma_number_round_trip(n, 10, 0xff);
}

/// The characters of `s`, in order.
pub fn chars_of(s: &str) -> (v: Vec<char>)
    ensures
        v@ == s@,
{
    let n = s.unicode_len();
    let mut v: Vec<char> = Vec::new();
    let mut i: usize = 0;
    while i < n
        invariant
            n == s@.len(),
            i <= n,
            v@ == s@.take(i as int),
        decreases n - i,
    {
        let c = s.get_char(i);
        v.push(c);
        i = i + 1;
        assert(v@ =~= s@.take(i as int));
    }
    assert(v@ =~= s@);
    v
}

fn char_digit(c: char, radix: u32) -> (d: Option<u32>)
    requires
        2 <= radix <= 36,
    ensures
        match d {
            Some(v) => digit_value(c, radix as nat) == Some(v as nat) && v < radix,
            None => digit_value(c, radix as nat) is None,
        },
{
    let n = c as u32;
    let v: u32 = if 48 <= n && n <= 57 {
        n - 48
    } else if 97 <= n && n <= 122 {
        n - 97 + 10
    } else if 65 <= n && n <= 90 {
        n - 65 + 10
    } else {
        radix
    };
    if v < radix {
        Some(v)
    } else {
        None
    }
}

proof fn lemma_digits_value_grows(high: nat, radix: nat, d: nat)
    requires
        radix >= 1,
    ensures
        high * radix + d >= high,
{
    assert(high * radix >= high) by (nonlinear_arith)
        requires
            radix >= 1,
    ;
}

/// Reads the characters of `chars` from `start` on as an unsigned number in
/// `radix` that is at most `max`.
pub fn parse_unsigned_from(chars: &Vec<char>, start: usize, radix: u32, max: u32) -> (r: Option<
    u32,
>)
    requires
        2 <= radix <= 36,
        start <= chars@.len(),
    ensures
        match r {
            Some(v) => parse_unsigned(chars@.skip(start as int), radix as nat, max as nat) == Some(
                v as nat,
            ),
            None => parse_unsigned(chars@.skip(start as int), radix as nat, max as nat) is None,
        },
{
    let ghost s = chars@.skip(start as int);
    let len = chars.len();
    let mut i = start;
    if i < len && chars[i] == '+' {
        i = i + 1;
    }
    assert(unsigned_digits(s) =~= chars@.skip(i as int));
    if i == len {
        return None;
    }
    let first = i;
    let ghost digits = chars@.skip(first as int);
    let mut acc: u32 = 0;
    let mut over = false;
    assert(digits.take(0) =~= Seq::<char>::empty());
    while i < len
        invariant
            first <= i <= len,
            first < len,
            len == chars@.len(),
            s == chars@.skip(start as int),
            unsigned_digits(s) == digits,
            digits == chars@.skip(first as int),
            2 <= radix <= 36,
            !over ==> digits_value(digits.take(i - first), radix as nat) == Some(acc as nat),
            over ==> (digits_value(digits.take(i - first), radix as nat) matches Some(v) && v
                > max),
            !over ==> acc <= max,
        decreases len - i,
    {
        let c = chars[i];
        let ghost prefix = digits.take(i - first);
        let ghost next = digits.take(i + 1 - first);
        assert(next.drop_last() =~= prefix);
        assert(next.last() == c);
        match char_digit(c, radix) {
            None => {
                proof {
                    lemma_invalid_digit_stays_invalid(digits, (i + 1 - first) as nat, radix as nat);
                }
                return None;
            },
            Some(d) => {
                if over {
                    proof {
                        let v = digits_value(prefix, radix as nat).unwrap();
                        lemma_digits_value_grows(v, radix as nat, d as nat);
                    }
                } else {
                    assert(acc as u64 * radix as u64 <= 0xffff_ffff * 36) by (nonlinear_arith)
                        requires
                            acc <= 0xffff_ffff,
                            radix <= 36,
                    ;
                    let wide: u64 = acc as u64 * radix as u64 + d as u64;
                    if wide > max as u64 {
                        over = true;
                    } else {
                        acc = wide as u32;
                    }
                }
            },
        }
        i = i + 1;
    }
    assert(digits.take(len - first) =~= digits);
    if over {
        None
    } else {
        Some(acc)
    }
}

proof fn lemma_invalid_digit_stays_invalid(s: Seq<char>, k: nat, radix: nat)
    requires
        0 < k <= s.len(),
        digits_value(s.take(k as int), radix) is None,
    ensures
        digits_value(s, radix) is None,
    decreases s.len() - k,
{
    if k < s.len() {
        assert(s.take((k + 1) as int).drop_last() =~= s.take(k as int));
        lemma_invalid_digit_stays_invalid(s, k + 1, radix);
    } else {
        assert(s.take(k as int) =~= s);
    }
}

/// Position in `chars` after every leading repetition of `0x`.
fn hex_prefix_end(chars: &Vec<char>) -> (k: usize)
    ensures
        k <= chars@.len(),
        chars@.skip(k as int) == strip_hex_prefix(chars@),
{
    let len = chars.len();
    let mut k: usize = 0;
    assert(chars@.skip(0) =~= chars@);
    while len > 0 && k < len - 1 && chars[k] == '0' && chars[k + 1] == 'x'
        invariant
            k <= len,
            len == chars@.len(),
            strip_hex_prefix(chars@.skip(k as int)) == strip_hex_prefix(chars@),
        decreases len - k,
    {
        let ghost rest = chars@.skip(k as int);
        assert(rest.subrange(2, rest.len() as int) =~= chars@.skip(k + 2));
        k = k + 2;
    }
    k
}

/// Reads a hotkey code as the configuration file writes it: hexadecimal,
/// after any leading `0x` prefixes.
pub fn parse_hotkey(value: &str) -> (r: Option<u32>)
    ensures
        match r {
            Some(v) => hotkey_value(value@) == Some(v as nat),
            None => hotkey_value(value@) is None,
        },
{
    let chars = chars_of(value);
    let start = hex_prefix_end(&chars);
    parse_unsigned_from(&chars, start, 16, 0xffff_ffff)
}

/// Reads a player count as the configuration file writes it: decimal.
pub fn parse_player_count(value: &str) -> (r: Option<u8>)
    ensures
        match r {
            Some(v) => player_count_value(value@) == Some(v as nat),
            None => player_count_value(value@) is None,
        },
{
    let chars = chars_of(value);
    assert(chars@.skip(0) =~= chars@);
    match parse_unsigned_from(&chars, 0, 10, 0xff) {
        Some(v) => Some(v as u8),
        None => None,
    }
}

} // verus!
