//! Verified text helpers: decimal parsing and rendering, character
//! scanning, and whitespace trimming over character sequences.

use vstd::prelude::*;

verus! {

/// `c` is an ASCII decimal digit.
pub open spec fn is_digit(c: char) -> bool {
    48 <= c as int && c as int <= 57
}

/// The numeric value of a digit character.
pub open spec fn digit_val(c: char) -> int {
    c as int - 48
}

/// Every character of `s` is a decimal digit.
pub open spec fn all_digits(s: Seq<char>) -> bool {
    forall|i: int| 0 <= i < s.len() ==> is_digit(#[trigger] s[i])
}

/// The value of a digit string, most significant digit first.
pub open spec fn digits_val(s: Seq<char>) -> int
    decreases s.len(),
{
    if s.len() == 0 {
        0
    } else {
        digits_val(s.drop_last()) * 10 + digit_val(s.last())
    }
}

/// A digit string's value is non-negative.
pub proof fn lemma_digits_val_nonneg(s: Seq<char>)
    requires
        all_digits(s),
    ensures
        digits_val(s) >= 0,
    decreases s.len(),
{
    if s.len() > 0 {
        assert(all_digits(s.drop_last()));
        lemma_digits_val_nonneg(s.drop_last());
        assert(digit_val(s.last()) >= 0);
    }
}

/// Extending a digit string by one digit multiplies its value by ten and
/// adds the new digit.
pub proof fn lemma_digits_val_take_succ(s: Seq<char>, i: int)
    requires
        0 <= i < s.len(),
    ensures
        digits_val(s.take(i + 1)) == digits_val(s.take(i)) * 10 + digit_val(s[i]),
{
    assert(s.take(i + 1).drop_last() =~= s.take(i));
    assert(s.take(i + 1).last() == s[i]);
}

/// A digit string is worth at least any of its prefixes.
pub proof fn lemma_digits_val_prefix_le(s: Seq<char>, i: int)
    requires
        all_digits(s),
        0 <= i <= s.len(),
    ensures
        digits_val(s.take(i)) <= digits_val(s),
    decreases s.len() - i,
{
    if i < s.len() {
        lemma_digits_val_take_succ(s, i);
        assert(all_digits(s.take(i)));
        lemma_digits_val_nonneg(s.take(i));
        assert(digits_val(s.take(i + 1)) >= digits_val(s.take(i))) by (nonlinear_arith)
            requires
                digits_val(s.take(i + 1)) == digits_val(s.take(i)) * 10 + digit_val(s[i]),
                digits_val(s.take(i)) >= 0,
                digit_val(s[i]) >= 0,
        ;
        lemma_digits_val_prefix_le(s, i + 1);
        assert(s.take(s.len() as int) =~= s);
    } else {
        assert(s.take(s.len() as int) =~= s);
    }
}

/// Parse the digit run `s[start..]` as an unsigned number, refusing any
/// non-digit, an empty run, and any value above `limit`.
fn parse_digits(s: &str, start: usize, limit: u64) -> (r: Option<u64>)
    requires
        start <= s@.len(),
        limit >= 9,
    ensures
        match r {
            Some(v) => {
                let t = s@.subrange(start as int, s@.len() as int);
                &&& t.len() > 0
                &&& all_digits(t)
                &&& digits_val(t) == v
                &&& digits_val(t) <= limit
            },
            None => {
                let t = s@.subrange(start as int, s@.len() as int);
                ||| t.len() == 0
                ||| !all_digits(t)
                ||| digits_val(t) > limit
            },
        },
{
    let len = s.unicode_len();
    if start >= len {
        return None;
    }
    let ghost t = s@.subrange(start as int, s@.len() as int);
    let mut mag: u64 = 0;
    let mut i: usize = start;
    while i < len
        invariant
            start <= i <= len,
            len == s@.len(),
            t == s@.subrange(start as int, s@.len() as int),
            limit >= 9,
            all_digits(t.take(i - start)),
            mag == digits_val(t.take(i - start)),
            mag <= limit,
        decreases len - i,
    {
        let c = s.get_char(i);
        let cu = c as u32;
        if cu < 48 || cu > 57 {
            proof {
                assert(t[i - start] == s@[i as int]);
                assert(!is_digit(t[i - start]));
            }
            return None;
        }
        let d: u64 = (cu - 48) as u64;
        proof {
            assert(t[i - start] == s@[i as int]);
            assert(is_digit(t[i - start]));
            assert(digit_val(t[i - start]) == d);
            lemma_digits_val_take_succ(t, i - start);
        }
        if mag > (limit - d) / 10 {
            proof {
                assert(digits_val(t.take(i - start + 1)) > limit) by (nonlinear_arith)
                    requires
                        digits_val(t.take(i - start + 1)) == digits_val(t.take(i - start)) * 10
                            + digit_val(t[i - start]),
                        digits_val(t.take(i - start)) == mag,
                        digit_val(t[i - start]) == d,
                        mag > (limit - d) / 10,
                        0 <= d <= 9,
                        d <= limit,
                ;
                assert(all_digits(t.take(i - start + 1)) ==> all_digits(t) ==> digits_val(t)
                    > limit) by {
                    if all_digits(t) {
                        lemma_digits_val_prefix_le(t, i - start + 1);
                    }
                }
            }
            return None;
        }
        proof {
            assert(mag * 10 + d <= limit) by (nonlinear_arith)
                requires
                    mag <= (limit - d) / 10,
                    0 <= d <= 9,
                    d <= limit,
            ;
            assert(all_digits(t.take(i - start + 1)));
        }
        mag = mag * 10 + d;
        i = i + 1;
    }
    proof {
        assert(t.take(len - start) =~= t);
    }
    Some(mag)
}

/// Rust's signed-decimal grammar for `i64`: an optional sign, then at least
/// one digit, and a value within the `i64` range.
pub open spec fn parse_i64_ok(s: Seq<char>) -> bool {
    let has_sign = s.len() > 0 && (s[0] == '+' || s[0] == '-');
    let t = if has_sign {
        s.subrange(1, s.len() as int)
    } else {
        s
    };
    &&& t.len() > 0
    &&& all_digits(t)
    &&& if s.len() > 0 && s[0] == '-' {
        digits_val(t) <= 0x8000_0000_0000_0000
    } else {
        digits_val(t) <= 0x7fff_ffff_ffff_ffff
    }
}

/// The value such a string denotes.
pub open spec fn parse_i64_val(s: Seq<char>) -> int {
    let has_sign = s.len() > 0 && (s[0] == '+' || s[0] == '-');
    let t = if has_sign {
        s.subrange(1, s.len() as int)
    } else {
        s
    };
    if s.len() > 0 && s[0] == '-' {
        -digits_val(t)
    } else {
        digits_val(t)
    }
}

/// Parse a decimal `i64` exactly as `str::parse::<i64>` accepts it: an
/// optional `+` or `-` sign followed by one or more digits, within range.
pub fn parse_i64(s: &str) -> (r: Option<i64>)
    ensures
        r is Some <==> parse_i64_ok(s@),
        r matches Some(v) ==> v == parse_i64_val(s@),
{
    let len = s.unicode_len();
    if len == 0 {
        return None;
    }
    let c0 = s.get_char(0);
    let neg = c0 == '-';
    let has_sign = neg || c0 == '+';
    let start: usize = if has_sign {
        1
    } else {
        0
    };
    let limit: u64 = if neg {
        9223372036854775808
    } else {
        9223372036854775807
    };
    let ghost t = if has_sign {
        s@.subrange(1, s@.len() as int)
    } else {
        s@
    };
    proof {
        if !has_sign {
            assert(s@.subrange(0, s@.len() as int) =~= s@);
        }
    }
    match parse_digits(s, start, limit) {
        Some(mag) => {
            if neg {
                if mag == 9223372036854775808 {
                    Some(i64::MIN)
                } else {
                    Some(-(mag as i64))
                }
            } else {
                Some(mag as i64)
            }
        },
        None => None,
    }
}

/// Rust's unsigned-decimal grammar for `u64`: an optional `+`, then at
/// least one digit, value at most `u64::MAX`.
pub open spec fn parse_u64_ok(s: Seq<char>) -> bool {
    let t = if s.len() > 0 && s[0] == '+' {
        s.subrange(1, s.len() as int)
    } else {
        s
    };
    &&& t.len() > 0
    &&& all_digits(t)
    &&& digits_val(t) <= 0xffff_ffff_ffff_ffff
}

/// The value such a string denotes.
pub open spec fn parse_u64_val(s: Seq<char>) -> int {
    let t = if s.len() > 0 && s[0] == '+' {
        s.subrange(1, s.len() as int)
    } else {
        s
    };
    digits_val(t)
}

/// The index of the first occurrence of `c` in `s` at or after `i`, or the
/// length of `s` when there is none.
pub open spec fn find_char(s: Seq<char>, c: char, i: int) -> int
    decreases s.len() - i,
{
    if i < 0 || i >= s.len() {
        s.len() as int
    } else if s[i] == c {
        i
    } else {
        find_char(s, c, i + 1)
    }
}

/// The found index lies between the start of the scan and the length, and
/// is either the length or an occurrence, with none before it.
pub proof fn lemma_find_char(s: Seq<char>, c: char, i: int)
    requires
        0 <= i <= s.len(),
    ensures
        i <= find_char(s, c, i) <= s.len(),
        find_char(s, c, i) < s.len() ==> s[find_char(s, c, i)] == c,
        forall|k: int| i <= k < find_char(s, c, i) ==> s[k] != c,
    decreases s.len() - i,
{
    if i < s.len() && s[i] != c {
        lemma_find_char(s, c, i + 1);
    }
}

/// Scan for the first occurrence of `c` at or after `from`.
pub fn find_char_from(s: &str, c: char, from: usize) -> (r: usize)
    requires
        from <= s@.len(),
    ensures
        r == find_char(s@, c, from as int),
        from <= r <= s@.len(),
        r < s@.len() ==> s@[r as int] == c,
{
    let len = s.unicode_len();
    let mut i: usize = from;
    while i < len && s.get_char(i) != c
        invariant
            from <= i <= len,
            len == s@.len(),
            find_char(s@, c, from as int) == find_char(s@, c, i as int),
        decreases len - i,
    {
        i = i + 1;
    }
    proof {
        assert(find_char(s@, c, i as int) == i);
    }
    i
}

/// `c` is an ASCII whitespace character.
pub open spec fn is_space(c: char) -> bool {
    c == ' ' || c == '\t' || c == '\n' || c == '\r'
}

/// The index of the first non-whitespace character at or after `i`, or the
/// length of `s`.
pub open spec fn skip_spaces(s: Seq<char>, i: int) -> int
    decreases s.len() - i,
{
    if i < 0 || i >= s.len() {
        s.len() as int
    } else if is_space(s[i]) {
        skip_spaces(s, i + 1)
    } else {
        i
    }
}

/// The end of the trimmed region scanning back from `i`: the least index
/// such that everything from it up to `i` is whitespace.
pub open spec fn skip_spaces_rev(s: Seq<char>, i: int) -> int
    decreases i,
{
    if i <= 0 || i > s.len() {
        0
    } else if is_space(s[i - 1]) {
        skip_spaces_rev(s, i - 1)
    } else {
        i
    }
}

/// The index of the first whitespace character at or after `i`, or the
/// length of `s`.
pub open spec fn find_space(s: Seq<char>, i: int) -> int
    decreases s.len() - i,
{
    if i < 0 || i >= s.len() {
        s.len() as int
    } else if is_space(s[i]) {
        i
    } else {
        find_space(s, i + 1)
    }
}

/// Scan for the first whitespace character at or after `from`.
pub fn find_space_from(s: &str, from: usize) -> (r: usize)
    requires
        from <= s@.len(),
    ensures
        r == find_space(s@, from as int),
        from <= r <= s@.len(),
{
    let len = s.unicode_len();
    let mut i: usize = from;
    while i < len && !(s.get_char(i) == ' ' || s.get_char(i) == '\t' || s.get_char(i) == '\n'
        || s.get_char(i) == '\r')
        invariant
            from <= i <= len,
            len == s@.len(),
            find_space(s@, from as int) == find_space(s@, i as int),
        decreases len - i,
    {
        i = i + 1;
    }
    proof {
        assert(find_space(s@, i as int) == i);
    }
    i
}

/// Scan past whitespace characters at or after `from`.
pub fn skip_spaces_from(s: &str, from: usize) -> (r: usize)
    requires
        from <= s@.len(),
    ensures
        r == skip_spaces(s@, from as int),
        from <= r <= s@.len(),
{
    let len = s.unicode_len();
    let mut i: usize = from;
    while i < len && (s.get_char(i) == ' ' || s.get_char(i) == '\t' || s.get_char(i) == '\n'
        || s.get_char(i) == '\r')
        invariant
            from <= i <= len,
            len == s@.len(),
            skip_spaces(s@, from as int) == skip_spaces(s@, i as int),
        decreases len - i,
    {
        i = i + 1;
    }
    proof {
        assert(skip_spaces(s@, i as int) == i);
    }
    i
}

/// `s` with leading and trailing ASCII whitespace removed.
pub open spec fn trim_spaces(s: Seq<char>) -> Seq<char> {
    let a = skip_spaces(s, 0);
    if a == s.len() {
        Seq::<char>::empty()
    } else {
        s.subrange(a, skip_spaces_rev(s, s.len() as int))
    }
}

/// Basic bounds of the two whitespace scans.
pub proof fn lemma_skip_spaces(s: Seq<char>, i: int)
    requires
        0 <= i <= s.len(),
    ensures
        i <= skip_spaces(s, i) <= s.len(),
        skip_spaces(s, i) < s.len() ==> !is_space(s[skip_spaces(s, i)]),
        forall|k: int| i <= k < skip_spaces(s, i) ==> is_space(s[k]),
    decreases s.len() - i,
{
    if i < s.len() && is_space(s[i]) {
        lemma_skip_spaces(s, i + 1);
    }
}

/// Basic bounds of the backward whitespace scan.
pub proof fn lemma_skip_spaces_rev(s: Seq<char>, i: int)
    requires
        0 <= i <= s.len(),
    ensures
        0 <= skip_spaces_rev(s, i) <= i,
        skip_spaces_rev(s, i) > 0 ==> !is_space(s[skip_spaces_rev(s, i) - 1]),
        forall|k: int| skip_spaces_rev(s, i) <= k < i ==> is_space(s[k]),
    decreases i,
{
    if 0 < i <= s.len() && is_space(s[i - 1]) {
        lemma_skip_spaces_rev(s, i - 1);
    }
}

/// Trim leading and trailing ASCII whitespace from `s`.
pub fn trim_ascii_spaces(s: &str) -> (r: String)
    ensures
        r@ == trim_spaces(s@),
{
    let len = s.unicode_len();
    let mut a: usize = 0;
    while a < len && (s.get_char(a) == ' ' || s.get_char(a) == '\t' || s.get_char(a) == '\n'
        || s.get_char(a) == '\r')
        invariant
            0 <= a <= len,
            len == s@.len(),
            skip_spaces(s@, 0) == skip_spaces(s@, a as int),
        decreases len - a,
    {
        a = a + 1;
    }
    proof {
        assert(skip_spaces(s@, a as int) == a);
    }
    if a == len {
        return String::new();
    }
    let mut b: usize = len;
    while b > 0 && (s.get_char(b - 1) == ' ' || s.get_char(b - 1) == '\t' || s.get_char(b - 1)
        == '\n' || s.get_char(b - 1) == '\r')
        invariant
            0 <= b <= len,
            len == s@.len(),
            skip_spaces_rev(s@, len as int) == skip_spaces_rev(s@, b as int),
        decreases b,
    {
        b = b - 1;
    }
    proof {
        assert(skip_spaces_rev(s@, b as int) == b);
        lemma_skip_spaces(s@, 0);
        lemma_skip_spaces_rev(s@, len as int);
        assert(a < len && !is_space(s@[a as int]));
        assert(b >= a + 1) by {
            if b < a + 1 {
                assert(is_space(s@[a as int]));
            }
        }
    }
    let piece = s.substring_char(a, b);
    piece.to_owned()
}

/// The character for one decimal digit value.
pub open spec fn char_of_digit(d: int) -> char {
    ((48 + d) as u8) as char
}

/// The decimal rendering of a non-negative number, most significant digit
/// first, without a sign and without leading zeros.
pub open spec fn dec_digits(n: int) -> Seq<char>
    decreases n,
{
    if n < 10 {
        seq![char_of_digit(n)]
    } else {
        dec_digits(n / 10).push(char_of_digit(n % 10))
    }
}

/// The string literal for one decimal digit.
fn digit_str(d: u8) -> (r: &'static str)
    requires
        d <= 9,
    ensures
        r@ == seq![char_of_digit(d as int)],
{
    proof {
        reveal_strlit("0");
        reveal_strlit("1");
        reveal_strlit("2");
        reveal_strlit("3");
        reveal_strlit("4");
        reveal_strlit("5");
        reveal_strlit("6");
        reveal_strlit("7");
        reveal_strlit("8");
        reveal_strlit("9");
    }
    let r = match d {
        0 => "0",
        1 => "1",
        2 => "2",
        3 => "3",
        4 => "4",
        5 => "5",
        6 => "6",
        7 => "7",
        8 => "8",
        _ => "9",
    };
    proof {
        assert(r@ =~= seq![char_of_digit(d as int)]);
    }
    r
}

/// Render a non-negative number in decimal.
pub fn i64_dec_string(n: i64) -> (r: String)
    requires
        n >= 0,
    ensures
        r@ == dec_digits(n as int),
    decreases n,
{
    if n < 10 {
        digit_str(n as u8).to_owned()
    } else {
        let mut s = i64_dec_string(n / 10);
        s.append(digit_str((n % 10) as u8));
        proof {
            assert(dec_digits((n as int) / 10).push(char_of_digit((n as int) % 10)) =~= dec_digits(
                (n as int) / 10,
            ) + seq![char_of_digit((n as int) % 10)]);
        }
        s
    }
}

/// Parse a decimal `u64` exactly as `str::parse::<u64>` accepts it.
pub fn parse_u64(s: &str) -> (r: Option<u64>)
    ensures
        r is Some <==> parse_u64_ok(s@),
        r matches Some(v) ==> v == parse_u64_val(s@),
{
    let len = s.unicode_len();
    if len == 0 {
        return None;
    }
    let c0 = s.get_char(0);
    let start: usize = if c0 == '+' {
        1
    } else {
        0
    };
    proof {
        if c0 != '+' {
            assert(s@.subrange(0, s@.len() as int) =~= s@);
        }
    }
    parse_digits(s, start, u64::MAX)
}

} // verus!
