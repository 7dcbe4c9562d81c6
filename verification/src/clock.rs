//! Time arithmetic: splitting a second count into hours/minutes/seconds,
//! turning a component into its decimal digits, and parsing the user's
//! `H:M:S` / `M:S` / `S` time string.

use vstd::prelude::*;
use vstd::arithmetic::div_mod::{lemma_fundamental_div_mod, lemma_mod_mod};
use vstd::string::StrSliceExecFns;

verus! {

/// Which clock component of the time string was at fault.
#[derive(Debug, Clone, Copy, PartialEq, Eq, Structural)]
pub enum TimeField {
    Hours,
    Minutes,
    Seconds,
}

/// Why a time string was rejected.
#[derive(Debug, Clone, PartialEq, Eq)]
pub enum TimeError {
    /// The string does not split into one to three colon-separated parts.
    InvalidFormat,
    /// A part is not a non-negative integer; carries the offending text.
    InvalidComponent(TimeField, String),
}

/// Decimal digits of `n`, most significant first, with no leading zero;
/// zero itself is the single digit `[0]`.
pub open spec fn spec_digits(n: nat) -> Seq<u8>
    decreases n,
{
    if n < 10 {
        seq![n as u8]
    } else {
        spec_digits(n / 10).push((n % 10) as u8)
    }
}

/// The number that a digit sequence denotes, read most significant first.
pub open spec fn digits_value(ds: Seq<u8>) -> nat
    decreases ds.len(),
{
    if ds.len() == 0 {
        0
    } else {
        digits_value(ds.drop_last()) * 10 + ds.last() as nat
    }
}

/// A hour/minute/second component as displayed: at least two digits wide,
/// so single-digit values gain one leading zero.
pub open spec fn spec_padded_digits(n: nat) -> Seq<u8> {
    if n < 10 {
        seq![0u8, n as u8]
    } else {
        spec_digits(n)
    }
}

pub open spec fn pow10(k: nat) -> nat
    decreases k,
{
    if k == 0 {
        1
    } else {
        10 * pow10((k - 1) as nat)
    }
}

/// The decimal representation has no leading zero (except for zero itself),
/// denotes the number it came from, and consists of digits below ten.
pub proof fn lemma_digits(n: nat)
    ensures
        spec_digits(n).len() >= 1,
        digits_value(spec_digits(n)) == n,
        spec_digits(n)[0] == 0 ==> n == 0,
        forall|i: int| 0 <= i < spec_digits(n).len() ==> spec_digits(n)[i] < 10,
    decreases n,
{
    if n < 10 {
        assert(spec_digits(n) =~= seq![n as u8]);
        assert(spec_digits(n).drop_last() =~= Seq::<u8>::empty());
        assert(digits_value(Seq::<u8>::empty()) == 0);
        assert(digits_value(spec_digits(n)) == 0 * 10 + n);
    } else {
        lemma_digits(n / 10);
        let prefix = spec_digits(n / 10);
        let whole = spec_digits(n);
        assert(whole == prefix.push((n % 10) as u8));
        assert(whole.drop_last() =~= prefix);
        assert(whole.last() == (n % 10) as u8);
        assert(digits_value(whole) == digits_value(prefix) * 10 + n % 10);
        lemma_fundamental_div_mod(n as int, 10);
        assert(whole[0] == prefix[0]);
        assert(forall|i: int| 0 <= i < whole.len() ==> whole[i] < 10) by {
            assert(forall|i: int| 0 <= i < prefix.len() ==> whole[i] == prefix[i]);
        }
    }
}

/// With fewer than `pow10(k)` to represent, at most `k` digits are needed.
pub proof fn lemma_digits_len(n: nat, k: nat)
    requires
        1 <= k,
        n < pow10(k),
    ensures
        spec_digits(n).len() <= k,
    decreases k,
{
    if n < 10 {
    } else {
        assert(pow10(k) == 10 * pow10((k - 1) as nat));
        assert(k >= 2) by {
            if k == 1 {
                assert(pow10(1nat) == 10);
            }
        }
        assert(n / 10 < pow10((k - 1) as nat)) by {
            lemma_fundamental_div_mod(n as int, 10);
        }
        lemma_digits_len(n / 10, (k - 1) as nat);
    }
}

/// Any `u64` needs at most twenty decimal digits.
pub proof fn lemma_digits_len_u64(n: u64)
    ensures
        spec_digits(n as nat).len() <= 20,
{
    reveal_with_fuel(pow10, 21);
    assert(pow10(20) == 100000000000000000000);
    lemma_digits_len(n as nat, 20);
}

/// Minimal decimal digit sequence of `n`, most significant first.
pub fn digits_of(n: u64) -> (r: Vec<u8>)
    ensures
        r@ == spec_digits(n as nat),
        1 <= r@.len() <= 20,
    decreases n,
{
    proof {
        lemma_digits_len_u64(n);
        lemma_digits(n as nat);
    }
    if n < 10 {
        let mut v: Vec<u8> = Vec::new();
        v.push(n as u8);
        proof {
            assert(v@ =~= spec_digits(n as nat));
        }
        v
    } else {
        let mut v = digits_of(n / 10);
        v.push((n % 10) as u8);
        proof {
            assert(v@ =~= spec_digits(n as nat));
        }
        v
    }
}

/// Digit sequence of one time component as displayed: zero-padded to a
/// minimum width of two.
pub fn digits(n: u64) -> (r: Vec<u8>)
    ensures
        r@ == spec_padded_digits(n as nat),
        2 <= r@.len() <= 20,
        forall|i: int| 0 <= i < r@.len() ==> r@[i] < 10,
{
    proof {
        lemma_digits(n as nat);
        if n >= 10 {
            lemma_digits(n as nat / 10);
        }
    }
    if n < 10 {
        let mut v: Vec<u8> = Vec::new();
        v.push(0u8);
        v.push(n as u8);
        proof {
            assert(v@ =~= spec_padded_digits(n as nat));
        }
        v
    } else {
        let v = digits_of(n);
        v
    }
}

/// Split a total second count into clock components:
/// `total == h * 3600 + m * 60 + s` with `m` and `s` below sixty.
pub fn decompose(total_seconds: u64) -> (r: (u64, u64, u64))
    ensures
        r.0 == total_seconds as int / 3600,
        r.1 == (total_seconds as int % 3600) / 60,
        r.2 == total_seconds as int % 60,
        r.0 * 3600 + r.1 * 60 + r.2 == total_seconds,
        r.1 < 60,
        r.2 < 60,
{
    let h = total_seconds / 3600;
    let m = (total_seconds % 3600) / 60;
    let s = total_seconds % 60;
    proof {
        let t = total_seconds as int;
        lemma_fundamental_div_mod(t, 3600);
        lemma_fundamental_div_mod(t % 3600, 60);
        lemma_mod_mod(t, 60, 60);
        assert(60 * 60 == 3600);
    }
    (h, m, s)
}

pub open spec fn is_digit_char(c: char) -> bool {
    '0' as int <= c as int && c as int <= '9' as int
}

pub open spec fn digit_char_val(c: char) -> nat {
    (c as int - '0' as int) as nat
}

pub open spec fn all_digit_chars(s: Seq<char>) -> bool {
    forall|i: int| 0 <= i < s.len() ==> is_digit_char(s[i])
}

/// The number a string of decimal digit characters denotes.
pub open spec fn digit_chars_value(s: Seq<char>) -> nat
    decreases s.len(),
{
    if s.len() == 0 {
        0
    } else {
        digit_chars_value(s.drop_last()) * 10 + digit_char_val(s.last())
    }
}

/// A numeric part may carry one leading plus sign, as `u64` parsing admits.
pub open spec fn strip_plus(s: Seq<char>) -> Seq<char> {
    if s.len() > 0 && s[0] == '+' {
        s.drop_first()
    } else {
        s
    }
}

/// Does this part parse as a `u64`: an optional plus sign, then at least
/// one decimal digit, denoting a value that fits.
pub open spec fn is_valid_part(s: Seq<char>) -> bool {
    let t = strip_plus(s);
    t.len() >= 1 && all_digit_chars(t) && digit_chars_value(t) <= u64::MAX
}

pub open spec fn part_value(s: Seq<char>) -> nat {
    digit_chars_value(strip_plus(s))
}

/// The colon-separated parts of a string; splitting never drops text, so
/// the empty string yields one empty part.
pub open spec fn split_colons(s: Seq<char>) -> Seq<Seq<char>>
    decreases s.len(),
{
    if s.len() == 0 {
        seq![Seq::<char>::empty()]
    } else if s[0] == ':' {
        seq![Seq::<char>::empty()] + split_colons(s.drop_first())
    } else {
        let rest = split_colons(s.drop_first());
        seq![seq![s[0]] + rest[0]] + rest.drop_first()
    }
}

pub proof fn lemma_split_nonempty(s: Seq<char>)
    ensures
        split_colons(s).len() >= 1,
    decreases s.len(),
{
    if s.len() == 0 {
    } else {
        lemma_split_nonempty(s.drop_first());
    }
}

/// A digit string is worth at least its prefix scaled by the digits cut off.
proof fn lemma_value_prefix(t: Seq<char>, i: int)
    requires
        0 <= i <= t.len(),
    ensures
        digit_chars_value(t) >= digit_chars_value(t.subrange(0, i)) * pow10((t.len() - i) as nat),
    decreases t.len() - i,
{
    if i == t.len() {
        assert(t.subrange(0, i) =~= t);
        assert((t.len() - i) as nat == 0);
        assert(pow10(0) == 1);
        assert(digit_chars_value(t.subrange(0, i)) * 1 == digit_chars_value(t));
    } else {
        lemma_value_prefix(t.drop_last(), i);
        assert(t.drop_last().subrange(0, i) =~= t.subrange(0, i));
        let v = digit_chars_value(t.subrange(0, i));
        let k = (t.len() - 1 - i) as nat;
        assert(pow10(k + 1) == 10 * pow10(k));
        assert(digit_chars_value(t) == digit_chars_value(t.drop_last()) * 10 + digit_char_val(
            t.last(),
        ));
        assert(digit_chars_value(t.drop_last()) >= v * pow10(k));
        assert(digit_chars_value(t.drop_last()) * 10 >= v * pow10(k) * 10) by (nonlinear_arith)
            requires
                digit_chars_value(t.drop_last()) >= v * pow10(k),
        ;
        assert(v * pow10(k) * 10 == v * (10 * pow10(k))) by (nonlinear_arith);
        assert(digit_chars_value(t) >= v * pow10(k + 1));
        assert((t.len() - i) as nat == k + 1);
    }
}

proof fn lemma_pow10_pos(k: nat)
    ensures
        pow10(k) >= 1,
    decreases k,
{
    if k > 0 {
        lemma_pow10_pos((k - 1) as nat);
    }
}

/// Parse one colon-separated part as a `u64`, rejecting anything that is
/// not an optionally plus-signed decimal number in range.
fn parse_part(part: &str) -> (r: Option<u64>)
    ensures
        r is Some <==> is_valid_part(part@),
        match r {
            Some(v) => v == part_value(part@),
            None => true,
        },
{
    let n: usize = part.unicode_len();
    let start: usize = if n > 0 && part.get_char(0) == '+' {
        1
    } else {
        0
    };
    let ghost t = strip_plus(part@);
    proof {
        assert(t =~= part@.subrange(start as int, n as int));
    }
    if n == start {
        return None;
    }
    let mut acc: u64 = 0;
    let mut i: usize = start;
    while i < n
        invariant
            start <= i <= n,
            n == part@.len(),
            t == strip_plus(part@),
            t == part@.subrange(start as int, n as int),
            t.len() == n - start,
            all_digit_chars(t.subrange(0, i - start)),
            acc == digit_chars_value(t.subrange(0, i - start)),
        decreases n - i,
    {
        let c = part.get_char(i);
        let ghost k = i - start;
        proof {
            assert(t[k as int] == part@[i as int]);
            assert(t.subrange(0, k + 1).drop_last() =~= t.subrange(0, k as int));
            assert(t.subrange(0, k + 1).last() == t[k as int]);
        }
        let u: u32 = c as u32;
        proof {
            assert(c as int == u as int);
        }
        if u < 48 || u > 57 {
            proof {
                assert('0' as int == 48 && '9' as int == 57);
                assert(!is_digit_char(t[k as int]));
                assert(!all_digit_chars(t)) by {
                    assert(0 <= k < t.len() && !is_digit_char(t[k as int]));
                }
            }
            return None;
        }
        let d: u64 = (u - 48) as u64;
        proof {
            assert('0' as int == 48 && '9' as int == 57);
            assert(is_digit_char(t[k as int]));
            assert(d == digit_char_val(t[k as int]));
            assert(digit_chars_value(t.subrange(0, k + 1)) == acc * 10 + d);
        }
        if acc > (u64::MAX - d) / 10 {
            proof {
                lemma_fundamental_div_mod(u64::MAX - d, 10);
                assert(acc * 10 + d > u64::MAX);
                assert(digit_chars_value(t.subrange(0, k + 1)) > u64::MAX);
                lemma_value_prefix(t, k + 1);
                lemma_pow10_pos((t.len() - k - 1) as nat);
                assert(digit_chars_value(t) >= digit_chars_value(t.subrange(0, k + 1)) * pow10(
                    (t.len() - k - 1) as nat,
                ));
                assert(digit_chars_value(t.subrange(0, k + 1)) * pow10((t.len() - k - 1) as nat)
                    >= digit_chars_value(t.subrange(0, k + 1)) * 1) by (nonlinear_arith)
                    requires
                        pow10((t.len() - k - 1) as nat) >= 1,
                ;
            }
            return None;
        }
        proof {
            lemma_fundamental_div_mod(u64::MAX - d, 10);
        }
        acc = acc * 10 + d;
        i = i + 1;
    }
    proof {
        assert(t.subrange(0, t.len() as int) =~= t);
    }
    Some(acc)
}

/// Split a string on colons into owned parts.
fn split_time(s: &str) -> (parts: Vec<String>)
    ensures
        parts@.map_values(|p: String| p@) == split_colons(s@),
        parts@.len() >= 1,
{
    let n: usize = s.unicode_len();
    let mut parts: Vec<String> = Vec::new();
    let mut start: usize = 0;
    let mut i: usize = 0;
    proof {
        lemma_split_nonempty(s@);
        assert(s@.subrange(0, n as int) =~= s@);
        assert(s@.subrange(0, 0) =~= Seq::<char>::empty());
        assert(Seq::<char>::empty() + split_colons(s@)[0] =~= split_colons(s@)[0]);
        assert(glue(Seq::<char>::empty(), split_colons(s@)) =~= split_colons(s@));
    }
    while i < n
        invariant
            0 <= start <= i <= n,
            n == s@.len(),
            split_colons(s@) =~= parts@.map_values(|p: String| p@) + glue(
                s@.subrange(start as int, i as int),
                split_colons(s@.subrange(i as int, n as int)),
            ),
        decreases n - i,
    {
        let ghost cur = s@.subrange(start as int, i as int);
        let ghost suffix = s@.subrange(i as int, n as int);
        let ghost rest = split_colons(s@.subrange(i + 1, n as int));
        proof {
            lemma_split_nonempty(s@.subrange(i + 1, n as int));
            assert(suffix[0] == s@[i as int]);
            assert(suffix.drop_first() =~= s@.subrange(i + 1, n as int));
        }
        let c = s.get_char(i);
        if c == ':' {
            proof {
                assert(split_colons(suffix) =~= seq![Seq::<char>::empty()] + rest);
                assert(cur + split_colons(suffix)[0] =~= cur);
                assert(glue(cur, split_colons(suffix)) =~= seq![cur] + rest);
                assert(s@.subrange(i + 1, i + 1) =~= Seq::<char>::empty());
                assert(Seq::<char>::empty() + rest[0] =~= rest[0]);
                assert(glue(s@.subrange(i + 1, i + 1), rest) =~= rest);
            }
            let piece: &str = s.substring_char(start, i);
            let done: String = piece.to_owned();
            parts.push(done);
            start = i + 1;
            proof {
                assert(parts@.map_values(|p: String| p@) =~= parts@.drop_last().map_values(
                    |p: String| p@,
                ).push(done@));
            }
        } else {
            proof {
                assert(split_colons(suffix) =~= seq![seq![suffix[0]] + rest[0]]
                    + rest.drop_first());
                assert(s@.subrange(start as int, i + 1) =~= cur.push(suffix[0]));
                assert(cur + (seq![suffix[0]] + rest[0]) =~= cur.push(suffix[0]) + rest[0]);
                assert(glue(cur, split_colons(suffix)) =~= glue(cur.push(suffix[0]), rest));
            }
        }
        i = i + 1;
    }
    proof {
        assert(s@.subrange(i as int, n as int) =~= Seq::<char>::empty());
        assert(split_colons(Seq::<char>::empty()) =~= seq![Seq::<char>::empty()]);
        assert(s@.subrange(start as int, n as int) + Seq::<char>::empty() =~= s@.subrange(
            start as int,
            n as int,
        ));
        assert(glue(s@.subrange(start as int, n as int), seq![Seq::<char>::empty()]) =~= seq![
            s@.subrange(start as int, n as int),
        ]);
    }
    let piece: &str = s.substring_char(start, n);
    let done: String = piece.to_owned();
    parts.push(done);
    proof {
        assert(parts@.map_values(|p: String| p@) =~= parts@.drop_last().map_values(|p: String| p@)
            + seq![done@]);
    }
    parts
}

/// The head part of a pending split, glued onto text already scanned.
pub open spec fn glue(cur: Seq<char>, rest: Seq<Seq<char>>) -> Seq<Seq<char>> {
    seq![cur + rest[0]] + rest.drop_first()
}

/// What `parse_time` answers on a given time string.
pub open spec fn spec_parse_time(s: Seq<char>) -> Result<(u64, u64, u64), (TimeField, Seq<char>)> {
    let parts = split_colons(s);
    if !(1 <= parts.len() <= 3) {
        Err((TimeField::Hours, Seq::<char>::empty()))
    } else {
        let (hp, mp, sp) = if parts.len() == 1 {
            ("0"@, "0"@, parts[0])
        } else if parts.len() == 2 {
            ("0"@, parts[0], parts[1])
        } else {
            (parts[0], parts[1], parts[2])
        };
        if !is_valid_part(hp) {
            Err((TimeField::Hours, hp))
        } else if !is_valid_part(mp) {
            Err((TimeField::Minutes, mp))
        } else if !is_valid_part(sp) {
            Err((TimeField::Seconds, sp))
        } else {
            Ok((part_value(hp) as u64, part_value(mp) as u64, part_value(sp) as u64))
        }
    }
}

/// Parse a time string of the shape `S`, `M:S` or `H:M:S`, where every part
/// is a non-negative decimal number that fits in a `u64`. Any other part
/// count is an [`TimeError::InvalidFormat`]; a bad part is reported as
/// [`TimeError::InvalidComponent`] with its text, hours checked first.
pub fn parse_time(time: &str) -> (r: Result<(u64, u64, u64), TimeError>)
    ensures
        match r {
            Ok(t) => spec_parse_time(time@) == Ok::<(u64, u64, u64), (TimeField, Seq<char>)>(t),
            Err(TimeError::InvalidFormat) => !(1 <= split_colons(time@).len() <= 3),
            Err(TimeError::InvalidComponent(f, v)) => spec_parse_time(time@) == Err::<
                (u64, u64, u64),
                (TimeField, Seq<char>),
            >((f, v@)) && 1 <= split_colons(time@).len() <= 3,
        },
{
    let parts: Vec<String> = split_time(time);
    let ghost pviews = parts@.map_values(|p: String| p@);
    if parts.len() == 0 || parts.len() > 3 {
        return Err(TimeError::InvalidFormat);
    }
    proof {
        assert(pviews[0] == parts@[0]@);
        if parts.len() >= 2 {
            assert(pviews[1] == parts@[1]@);
        }
        if parts.len() >= 3 {
            assert(pviews[2] == parts@[2]@);
        }
    }
    let zero: &str = "0";
    let (h_str, m_str, s_str): (&str, &str, &str) = if parts.len() == 1 {
        (zero, zero, parts[0].as_str())
    } else if parts.len() == 2 {
        (zero, parts[0].as_str(), parts[1].as_str())
    } else {
        (parts[0].as_str(), parts[1].as_str(), parts[2].as_str())
    };
    proof {
        reveal_strlit("0");
        assert('0' as int == 48);
        assert(is_digit_char('0'));
        assert("0"@ =~= seq!['0']);
        assert("0"@.drop_last() =~= Seq::<char>::empty());
        assert(digit_chars_value(Seq::<char>::empty()) == 0);
        assert("0"@.last() == '0');
        assert(digit_char_val('0') == 0);
        assert(digit_chars_value("0"@) == digit_chars_value("0"@.drop_last()) * 10
            + digit_char_val("0"@.last()));
        assert(digit_chars_value("0"@) == 0);
        assert(all_digit_chars("0"@));
        assert(strip_plus("0"@) == "0"@);
        assert(is_valid_part("0"@));
    }
    let h = match parse_part(h_str) {
        Some(v) => v,
        None => {
            return Err(TimeError::InvalidComponent(TimeField::Hours, h_str.to_owned()));
        },
    };
    let m = match parse_part(m_str) {
        Some(v) => v,
        None => {
            return Err(TimeError::InvalidComponent(TimeField::Minutes, m_str.to_owned()));
        },
    };
    let s = match parse_part(s_str) {
        Some(v) => v,
        None => {
            return Err(TimeError::InvalidComponent(TimeField::Seconds, s_str.to_owned()));
        },
    };
    Ok((h, m, s))
}

} // verus!
