//! Character-level text helpers shared by the parsers and formatters.

use vstd::prelude::*;
use vstd::string::*;

verus! {

/// The ASCII digit for `d` (`d < 10`).
pub open spec fn digit_char(d: nat) -> char {
    (d + 48) as char
}

/// Decimal notation of a natural number, most significant digit first,
/// without leading zeros (as `Display` prints unsigned integers).
pub open spec fn decimal(n: nat) -> Seq<char>
    decreases n,
{
    if n < 10 {
        seq![digit_char(n)]
    } else {
        decimal(n / 10).push(digit_char(n % 10))
    }
}

/// Decimal notation has at least one digit, and tells numbers apart.
pub proof fn lemma_decimal_injective(a: nat, b: nat)
    ensures
        decimal(a).len() >= 1,
        decimal(a) == decimal(b) ==> a == b,
    decreases a + b,
{
    if a >= 10 {
        lemma_decimal_injective(a / 10, a / 10);
    }
    if decimal(a) == decimal(b) {
        if a < 10 && b < 10 {
            assert(decimal(a)[0] == decimal(b)[0]);
        } else if a < 10 {
            lemma_decimal_injective(b / 10, b / 10);
            assert(decimal(b).len() >= 2);
        } else if b < 10 {
            assert(decimal(a).len() >= 2);
        } else {
            assert(decimal(a).last() == decimal(b).last());
            assert(digit_char(a % 10) == digit_char(b % 10));
            assert(decimal(a).drop_last() == decimal(a / 10));
            assert(decimal(b).drop_last() == decimal(b / 10));
            lemma_decimal_injective(a / 10, b / 10);
        }
    }
}

/// Appends one character to a string.
#[verifier::external_body]
pub(crate) fn push_char(s: &mut String, c: char)
    ensures
        final(s)@ == old(s)@.push(c),
{
    s.push(c);
}

/// The characters of a string slice, in order.
pub fn chars_of(s: &str) -> (res: Vec<char>)
    ensures
        res@ == s@,
{
    let mut res: Vec<char> = Vec::new();
    for c in it: s.chars()
        invariant
            res@ == it.seq().take(it.index() as int),
    {
        res.push(c);
    }
    res
}

/// A string made of the given characters.
pub fn string_from_chars(cs: &[char]) -> (res: String)
    ensures
        res@ == cs@,
{
    let mut res = String::new();
    let mut i: usize = 0;
    while i < cs.len()
        invariant
            i <= cs@.len(),
            res@ == cs@.take(i as int),
        decreases cs@.len() - i,
    {
        push_char(&mut res, cs[i]);
        assert(cs@.take(i + 1) == cs@.take(i as int).push(cs@[i as int]));
        i = i + 1;
    }
    assert(cs@.take(cs@.len() as int) == cs@);
    res
}

/// Decimal notation of `n`.
pub fn decimal_string(n: u128) -> (res: String)
    ensures
        res@ == decimal(n as nat),
{
    let mut digits: Vec<char> = Vec::new();
    let mut m: u128 = n;
    // digits holds the reversed decimal notation of the part already consumed
    let ghost mut rest: Seq<char> = Seq::empty();
    loop
        invariant_except_break
            decimal(n as nat) == decimal(m as nat) + rest,
        invariant
            digits@.len() == rest.len(),
            forall|i: int| 0 <= i < rest.len() ==> digits@[i] == rest[rest.len() - 1 - i],
        ensures
            decimal(n as nat) == rest,
        decreases m,
    {
        let d: u128 = m % 10;
        let c: char = (d as u8 + 48u8) as char;
        assert(c == digit_char(d as nat));
        if m < 10 {
            proof {
                rest = seq![c] + rest;
            }
            digits.push(c);
            break;
        }
        proof {
            assert(decimal(m as nat) == decimal((m / 10) as nat).push(c));
            assert(decimal((m / 10) as nat) + (seq![c] + rest) == decimal(m as nat) + rest);
            rest = seq![c] + rest;
        }
        digits.push(c);
        m = m / 10;
    }
    let mut res = String::new();
    let mut k: usize = digits.len();
    while k > 0
        invariant
            k <= digits@.len(),
            digits@.len() == rest.len(),
            forall|i: int| 0 <= i < rest.len() ==> digits@[i] == rest[rest.len() - 1 - i],
            res@ == rest.take(rest.len() - k),
        decreases k,
    {
        k = k - 1;
        push_char(&mut res, digits[k]);
        assert(rest.take(rest.len() - k) == rest.take(rest.len() - k - 1).push(rest[rest.len() - k - 1]));
    }
    assert(rest.take(rest.len() as int) == rest);
    res
}


/// Whether `c` has the Unicode `White_Space` property (what `char::is_whitespace`
/// tests).
pub open spec fn is_whitespace(c: char) -> bool {
    let u = c as u32;
    (9 <= u <= 13) || u == 32 || u == 0x85 || u == 0xA0 || u == 0x1680 || (0x2000 <= u
        <= 0x200A) || u == 0x2028 || u == 0x2029 || u == 0x202F || u == 0x205F || u == 0x3000
}

/// Executable `is_whitespace`.
pub fn char_is_whitespace(c: char) -> (res: bool)
    ensures
        res == is_whitespace(c),
{
    let u = c as u32;
    (9 <= u && u <= 13) || u == 32 || u == 0x85 || u == 0xA0 || u == 0x1680 || (0x2000 <= u && u
        <= 0x200A) || u == 0x2028 || u == 0x2029 || u == 0x202F || u == 0x205F || u == 0x3000
}

/// `s` without its leading whitespace.
pub open spec fn trim_start(s: Seq<char>) -> Seq<char>
    decreases s.len(),
{
    if s.len() > 0 && is_whitespace(s[0]) {
        trim_start(s.drop_first())
    } else {
        s
    }
}

/// `s` without its trailing whitespace.
pub open spec fn trim_end(s: Seq<char>) -> Seq<char>
    decreases s.len(),
{
    if s.len() > 0 && is_whitespace(s.last()) {
        trim_end(s.drop_last())
    } else {
        s
    }
}

/// `s` without leading and trailing whitespace (as `str::trim`).
pub open spec fn trim(s: Seq<char>) -> Seq<char> {
    trim_end(trim_start(s))
}

/// The pieces of `s` between occurrences of `sep`, as `str::split` with a
/// character pattern yields them: `n` separators give `n + 1` pieces.
pub open spec fn split_by(s: Seq<char>, sep: char) -> Seq<Seq<char>>
    decreases s.len(),
{
    if s.len() == 0 {
        seq![Seq::<char>::empty()]
    } else {
        let r = split_by(s.drop_last(), sep);
        if s.last() == sep {
            r.push(Seq::<char>::empty())
        } else {
            r.update(r.len() - 1, r.last().push(s.last()))
        }
    }
}

/// The pieces of `s` between whitespace characters, empty pieces included.
pub open spec fn split_ws_pieces(s: Seq<char>) -> Seq<Seq<char>>
    decreases s.len(),
{
    if s.len() == 0 {
        seq![Seq::<char>::empty()]
    } else {
        let r = split_ws_pieces(s.drop_last());
        if is_whitespace(s.last()) {
            r.push(Seq::<char>::empty())
        } else {
            r.update(r.len() - 1, r.last().push(s.last()))
        }
    }
}

/// Whether a piece is non-empty.
pub open spec fn non_empty(p: Seq<char>) -> bool {
    p.len() > 0
}

/// The maximal runs of non-whitespace characters of `s` (as `str::split_whitespace`).
pub open spec fn split_whitespace(s: Seq<char>) -> Seq<Seq<char>> {
    split_ws_pieces(s).filter(|p: Seq<char>| non_empty(p))
}

/// `split_by` always yields at least one piece.
pub proof fn lemma_split_by_len(s: Seq<char>, sep: char)
    ensures
        split_by(s, sep).len() >= 1,
        split_by(s, sep).len() == 1 ==> split_by(s, sep)[0] == s || s.contains(sep),
    decreases s.len(),
{
    if s.len() > 0 {
        lemma_split_by_len(s.drop_last(), sep);
    }
}

/// `split_ws_pieces` always yields at least one piece.
pub proof fn lemma_split_ws_len(s: Seq<char>)
    ensures
        split_ws_pieces(s).len() >= 1,
    decreases s.len(),
{
    if s.len() > 0 {
        lemma_split_ws_len(s.drop_last());
    }
}

/// The character sequences held by a vector of character vectors.
pub open spec fn views(v: Seq<Vec<char>>) -> Seq<Seq<char>> {
    v.map_values(|p: Vec<char>| p@)
}

/// The pieces of `cs` between occurrences of `sep`.
pub fn split_by_char(cs: &[char], sep: char) -> (res: Vec<Vec<char>>)
    ensures
        views(res@) == split_by(cs@, sep),
{
    let mut pieces: Vec<Vec<char>> = Vec::new();
    let mut cur: Vec<char> = Vec::new();
    let mut i: usize = 0;
    while i < cs.len()
        invariant
            i <= cs@.len(),
            split_by(cs@.take(i as int), sep).len() >= 1,
            views(pieces@) == split_by(cs@.take(i as int), sep).drop_last(),
            cur@ == split_by(cs@.take(i as int), sep).last(),
        decreases cs@.len() - i,
    {
        let c = cs[i];
        let ghost r0 = split_by(cs@.take(i as int), sep);
        proof {
            assert(cs@.take(i + 1).drop_last() == cs@.take(i as int));
            lemma_split_by_len(cs@.take(i as int), sep);
            assert(r0 == r0.drop_last().push(r0.last()));
        }
        if c == sep {
            pieces.push(cur);
            cur = Vec::new();
            proof {
                let r = split_by(cs@.take(i + 1), sep);
                assert(r.drop_last() =~= r0);
                assert(views(pieces@) =~= r0);
            }
        } else {
            cur.push(c);
            proof {
                let r = split_by(cs@.take(i + 1), sep);
                assert(r.drop_last() =~= r0.drop_last());
            }
        }
        i = i + 1;
    }
    assert(cs@.take(cs@.len() as int) == cs@);
    let ghost r = split_by(cs@, sep);
    proof {
        lemma_split_by_len(cs@, sep);
        assert(r == r.drop_last().push(r.last()));
    }
    pieces.push(cur);
    assert(views(pieces@) =~= r);
    pieces
}

/// The maximal runs of non-whitespace characters of `cs`.
pub fn split_whitespace_chars(cs: &[char]) -> (res: Vec<Vec<char>>)
    ensures
        views(res@) == split_whitespace(cs@),
{
    let mut pieces: Vec<Vec<char>> = Vec::new();
    let mut cur: Vec<char> = Vec::new();
    let mut i: usize = 0;
    let ghost ne = |p: Seq<char>| non_empty(p);
    while i < cs.len()
        invariant
            i <= cs@.len(),
            ne == (|p: Seq<char>| non_empty(p)),
            split_ws_pieces(cs@.take(i as int)).len() >= 1,
            views(pieces@) == split_ws_pieces(cs@.take(i as int)).drop_last().filter(ne),
            cur@ == split_ws_pieces(cs@.take(i as int)).last(),
        decreases cs@.len() - i,
    {
        let c = cs[i];
        let ghost r0 = split_ws_pieces(cs@.take(i as int));
        proof {
            assert(cs@.take(i + 1).drop_last() == cs@.take(i as int));
            lemma_split_ws_len(cs@.take(i as int));
        }
        if char_is_whitespace(c) {
            proof {
                assert(r0 == r0.drop_last().push(r0.last()));
                r0.drop_last().lemma_filter_push(r0.last(), ne);
            }
            if cur.len() > 0 {
                pieces.push(cur);
            }
            cur = Vec::new();
            proof {
                let r = split_ws_pieces(cs@.take(i + 1));
                assert(r.drop_last() =~= r0);
                assert(views(pieces@) =~= r.drop_last().filter(ne));
            }
        } else {
            cur.push(c);
            proof {
                let r = split_ws_pieces(cs@.take(i + 1));
                assert(r.drop_last() =~= r0.drop_last());
            }
        }
        i = i + 1;
    }
    assert(cs@.take(cs@.len() as int) == cs@);
    let ghost r = split_ws_pieces(cs@);
    proof {
        assert(r == r.drop_last().push(r.last()));
        r.drop_last().lemma_filter_push(r.last(), ne);
    }
    if cur.len() > 0 {
        pieces.push(cur);
    }
    assert(views(pieces@) =~= r.filter(ne));
    pieces
}

/// The characters of `cs` without leading and trailing whitespace.
pub fn trim_chars(cs: &[char]) -> (res: Vec<char>)
    ensures
        res@ == trim(cs@),
{
    let mut i: usize = 0;
    assert(cs@.skip(0) == cs@);
    while i < cs.len() && char_is_whitespace(cs[i])
        invariant
            i <= cs@.len(),
            trim_start(cs@) == trim_start(cs@.skip(i as int)),
        decreases cs@.len() - i,
    {
        assert(cs@.skip(i as int).drop_first() == cs@.skip(i + 1));
        i = i + 1;
    }
    assert(trim_start(cs@) == cs@.skip(i as int));
    let mut j: usize = cs.len();
    while j > i && char_is_whitespace(cs[j - 1])
        invariant
            i <= j <= cs@.len(),
            trim_start(cs@) == cs@.skip(i as int),
            trim(cs@) == trim_end(cs@.subrange(i as int, j as int)),
        decreases j,
    {
        assert(cs@.subrange(i as int, j as int).drop_last() == cs@.subrange(i as int, j - 1));
        j = j - 1;
    }
    assert(cs@.skip(i as int) == cs@.subrange(i as int, cs@.len() as int));
    let mut res: Vec<char> = Vec::new();
    let mut k: usize = i;
    while k < j
        invariant
            i <= k <= j <= cs@.len(),
            res@ == cs@.subrange(i as int, k as int),
        decreases j - k,
    {
        res.push(cs[k]);
        k = k + 1;
    }
    res
}

/// Why a string does not parse as an integer (the kinds of `std::num::IntErrorKind`
/// that integer parsing yields).
#[derive(PartialEq, Eq, Structural, Clone, Copy, Debug)]
pub enum IntErrorKind {
    Empty,
    InvalidDigit,
    PosOverflow,
    NegOverflow,
}

/// The value of digit `c` in base `radix` (as `char::to_digit`).
pub open spec fn digit_value(c: char, radix: nat) -> Option<nat> {
    let u = c as u32;
    let v: int = if 48 <= u <= 57 {
        u - 48
    } else if 97 <= u <= 122 {
        u - 87
    } else if 65 <= u <= 90 {
        u - 55
    } else {
        99
    };
    if v < radix {
        Some(v as nat)
    } else {
        None
    }
}

/// Reads the digits of `d` after the already accumulated value `acc`: the first
/// character that is not a digit gives `InvalidDigit`, the first digit that
/// takes the value above `max` gives `PosOverflow`.
pub open spec fn scan_digits(d: Seq<char>, radix: nat, max: nat, acc: nat) -> Result<nat, IntErrorKind>
    decreases d.len(),
{
    if d.len() == 0 {
        Ok(acc)
    } else {
        match digit_value(d[0], radix) {
            None => Err(IntErrorKind::InvalidDigit),
            Some(x) => if acc * radix + x > max {
                Err(IntErrorKind::PosOverflow)
            } else {
                scan_digits(d.drop_first(), radix, max, acc * radix + x)
            },
        }
    }
}

/// What `from_str_radix` of an unsigned integer type whose largest value is
/// `max` gives for `s`: an optional `+`, then digits.
pub open spec fn parse_unsigned(s: Seq<char>, radix: nat, max: nat) -> Result<nat, IntErrorKind> {
    if s.len() == 0 {
        Err(IntErrorKind::Empty)
    } else if s.len() == 1 && (s[0] == '+' || s[0] == '-') {
        Err(IntErrorKind::InvalidDigit)
    } else if s[0] == '+' {
        scan_digits(s.drop_first(), radix, max, 0)
    } else {
        scan_digits(s, radix, max, 0)
    }
}

/// What `from_str_radix` of a signed integer type whose range is
/// `-neg_max ..= pos_max` gives for `s`: an optional sign, then digits.
pub open spec fn parse_signed(s: Seq<char>, radix: nat, pos_max: nat, neg_max: nat) -> Result<
    int,
    IntErrorKind,
> {
    if s.len() == 0 {
        Err(IntErrorKind::Empty)
    } else if s.len() == 1 && (s[0] == '+' || s[0] == '-') {
        Err(IntErrorKind::InvalidDigit)
    } else if s[0] == '-' {
        match scan_digits(s.drop_first(), radix, neg_max, 0) {
            Ok(v) => Ok(-v),
            Err(IntErrorKind::PosOverflow) => Err(IntErrorKind::NegOverflow),
            Err(e) => Err(e),
        }
    } else if s[0] == '+' {
        match scan_digits(s.drop_first(), radix, pos_max, 0) {
            Ok(v) => Ok(v as int),
            Err(e) => Err(e),
        }
    } else {
        match scan_digits(s, radix, pos_max, 0) {
            Ok(v) => Ok(v as int),
            Err(e) => Err(e),
        }
    }
}

/// A machine result read as a mathematical one.
pub open spec fn as_nat_result(r: Result<u128, IntErrorKind>) -> Result<nat, IntErrorKind> {
    match r {
        Ok(v) => Ok(v as nat),
        Err(e) => Err(e),
    }
}

/// Executable `digit_value`.
pub fn char_digit_value(c: char, radix: u32) -> (res: Option<u32>)
    requires
        2 <= radix <= 36,
    ensures
        match res {
            Some(v) => digit_value(c, radix as nat) == Some(v as nat),
            None => digit_value(c, radix as nat) is None,
        },
{
    let u = c as u32;
    let v: u32 = if 48 <= u && u <= 57 {
        u - 48
    } else if 97 <= u && u <= 122 {
        u - 87
    } else if 65 <= u && u <= 90 {
        u - 55
    } else {
        99
    };
    if v < radix {
        Some(v)
    } else {
        None
    }
}

/// Reads the digits `cs[start..]` as `scan_digits` does, from 0.
pub fn scan_digits_from(cs: &[char], start: usize, radix: u32, max: u128) -> (res: Result<
    u128,
    IntErrorKind,
>)
    requires
        2 <= radix <= 36,
        max <= u64::MAX,
        start <= cs@.len(),
    ensures
        as_nat_result(res) == scan_digits(cs@.skip(start as int), radix as nat, max as nat, 0),
{
    let mut acc: u128 = 0;
    let mut i: usize = start;
    while i < cs.len()
        invariant
            2 <= radix <= 36,
            max <= u64::MAX,
            start <= i <= cs@.len(),
            acc <= max,
            scan_digits(cs@.skip(start as int), radix as nat, max as nat, 0) == scan_digits(
                cs@.skip(i as int),
                radix as nat,
                max as nat,
                acc as nat,
            ),
        decreases cs@.len() - i,
    {
        assert(cs@.skip(i as int).drop_first() == cs@.skip(i + 1));
        assert(cs@.skip(i as int)[0] == cs@[i as int]);
        match char_digit_value(cs[i], radix) {
            None => {
                return Err(IntErrorKind::InvalidDigit);
            },
            Some(x) => {
                assert(acc * radix <= u64::MAX * 36) by (nonlinear_arith)
                    requires
                        acc <= u64::MAX,
                        radix <= 36,
                ;
                let next = acc * (radix as u128) + (x as u128);
                if next > max {
                    return Err(IntErrorKind::PosOverflow);
                }
                acc = next;
            },
        }
        i = i + 1;
    }
    assert(cs@.skip(i as int).len() == 0);
    Ok(acc)
}

/// Parses `cs` as an unsigned integer no greater than `max`, as `from_str_radix`
/// of the unsigned type whose largest value is `max` does.
pub fn parse_unsigned_chars(cs: &[char], radix: u32, max: u128) -> (res: Result<
    u128,
    IntErrorKind,
>)
    requires
        2 <= radix <= 36,
        max <= u64::MAX,
    ensures
        as_nat_result(res) == parse_unsigned(cs@, radix as nat, max as nat),
        res matches Ok(v) ==> v <= max,
{
    if cs.len() == 0 {
        return Err(IntErrorKind::Empty);
    }
    if cs.len() == 1 && (cs[0] == '+' || cs[0] == '-') {
        return Err(IntErrorKind::InvalidDigit);
    }
    let r = if cs[0] == '+' {
        assert(cs@.skip(1) == cs@.drop_first());
        scan_digits_from(cs, 1, radix, max)
    } else {
        assert(cs@.skip(0) == cs@);
        scan_digits_from(cs, 0, radix, max)
    };
    proof {
        if r is Ok {
            lemma_scan_bounded(if cs@[0] == '+' { cs@.drop_first() } else { cs@ }, radix as nat, max as nat, 0);
        }
    }
    r
}

/// A successful scan stays within its bound.
pub proof fn lemma_scan_bounded(d: Seq<char>, radix: nat, max: nat, acc: nat)
    requires
        acc <= max,
    ensures
        scan_digits(d, radix, max, acc) matches Ok(v) ==> v <= max,
    decreases d.len(),
{
    if d.len() > 0 {
        match digit_value(d[0], radix) {
            None => {},
            Some(x) => {
                if acc * radix + x <= max {
                    lemma_scan_bounded(d.drop_first(), radix, max, acc * radix + x);
                }
            },
        }
    }
}

/// Parses a decimal `u16` (as `str::parse::<u16>`).
pub fn parse_u16(cs: &[char]) -> (res: Result<u16, IntErrorKind>)
    ensures
        match res {
            Ok(v) => parse_unsigned(cs@, 10, u16::MAX as nat) == Ok::<nat, IntErrorKind>(v as nat),
            Err(e) => parse_unsigned(cs@, 10, u16::MAX as nat) == Err::<nat, IntErrorKind>(e),
        },
{
    match parse_unsigned_chars(cs, 10, 0xffff) {
        Ok(v) => Ok(v as u16),
        Err(e) => Err(e),
    }
}

/// Parses a decimal `u32` (as `str::parse::<u32>`).
pub fn parse_u32(cs: &[char]) -> (res: Result<u32, IntErrorKind>)
    ensures
        match res {
            Ok(v) => parse_unsigned(cs@, 10, u32::MAX as nat) == Ok::<nat, IntErrorKind>(v as nat),
            Err(e) => parse_unsigned(cs@, 10, u32::MAX as nat) == Err::<nat, IntErrorKind>(e),
        },
{
    match parse_unsigned_chars(cs, 10, 0xffff_ffff) {
        Ok(v) => Ok(v as u32),
        Err(e) => Err(e),
    }
}

/// Parses a decimal `u64` (as `str::parse::<u64>`).
pub fn parse_u64(cs: &[char]) -> (res: Result<u64, IntErrorKind>)
    ensures
        match res {
            Ok(v) => parse_unsigned(cs@, 10, u64::MAX as nat) == Ok::<nat, IntErrorKind>(v as nat),
            Err(e) => parse_unsigned(cs@, 10, u64::MAX as nat) == Err::<nat, IntErrorKind>(e),
        },
{
    match parse_unsigned_chars(cs, 10, 0xffff_ffff_ffff_ffff) {
        Ok(v) => Ok(v as u64),
        Err(e) => Err(e),
    }
}

/// Parses a hexadecimal `u16` (as `u16::from_str_radix(_, 16)`).
pub fn parse_hex_u16(cs: &[char]) -> (res: Result<u16, IntErrorKind>)
    ensures
        match res {
            Ok(v) => parse_unsigned(cs@, 16, u16::MAX as nat) == Ok::<nat, IntErrorKind>(v as nat),
            Err(e) => parse_unsigned(cs@, 16, u16::MAX as nat) == Err::<nat, IntErrorKind>(e),
        },
{
    match parse_unsigned_chars(cs, 16, 0xffff) {
        Ok(v) => Ok(v as u16),
        Err(e) => Err(e),
    }
}

/// Parses a decimal `i32` (as `str::parse::<i32>`).
pub fn parse_i32(cs: &[char]) -> (res: Result<i32, IntErrorKind>)
    ensures
        match res {
            Ok(v) => parse_signed(cs@, 10, i32::MAX as nat, 0x8000_0000) == Ok::<int, IntErrorKind>(v as int),
            Err(e) => parse_signed(cs@, 10, i32::MAX as nat, 0x8000_0000) == Err::<int, IntErrorKind>(e),
        },
{
    if cs.len() == 0 {
        return Err(IntErrorKind::Empty);
    }
    if cs.len() == 1 && (cs[0] == '+' || cs[0] == '-') {
        return Err(IntErrorKind::InvalidDigit);
    }
    if cs[0] == '-' {
        assert(cs@.skip(1) == cs@.drop_first());
        let r = scan_digits_from(cs, 1, 10, 0x8000_0000);
        proof {
            lemma_scan_bounded(cs@.drop_first(), 10, 0x8000_0000, 0);
        }
        match r {
            Ok(v) => {
                let w: i64 = 0i64 - (v as i64);
                Ok(w as i32)
            },
            Err(IntErrorKind::PosOverflow) => Err(IntErrorKind::NegOverflow),
            Err(e) => Err(e),
        }
    } else {
        let start: usize = if cs[0] == '+' {
            1
        } else {
            0
        };
        assert(cs@.skip(1) == cs@.drop_first());
        assert(cs@.skip(0) == cs@);
        let r = scan_digits_from(cs, start, 10, 0x7fff_ffff);
        proof {
            lemma_scan_bounded(cs@.skip(start as int), 10, 0x7fff_ffff, 0);
        }
        match r {
            Ok(v) => Ok(v as i32),
            Err(e) => Err(e),
        }
    }
}


/// `p` without one trailing carriage return.
pub open spec fn strip_cr(p: Seq<char>) -> Seq<char> {
    if p.len() > 0 && p.last() == '\r' {
        p.drop_last()
    } else {
        p
    }
}

/// The lines of `s` (as `str::lines`): split at `\n`, a final line ending
/// adds no empty line, and a `\r` right before a `\n` is removed.
pub open spec fn lines(s: Seq<char>) -> Seq<Seq<char>> {
    let ps = split_by(s, '\n');
    let n = ps.len();
    let kept = if ps.last().len() == 0 {
        ps.drop_last()
    } else {
        ps
    };
    kept.map(|i: int, p: Seq<char>| if i < n - 1 { strip_cr(p) } else { p })
}

/// The lines of `cs`.
pub fn lines_of(cs: &[char]) -> (res: Vec<Vec<char>>)
    ensures
        views(res@) == lines(cs@),
{
    let ps = split_by_char(cs, '\n');
    proof {
        lemma_split_by_len(cs@, '\n');
    }
    let n = ps.len();
    let kept: usize = if ps[n - 1].len() == 0 {
        n - 1
    } else {
        n
    };
    let ghost ks = if views(ps@).last().len() == 0 {
        views(ps@).drop_last()
    } else {
        views(ps@)
    };
    assert(ks.len() == kept);
    let mut res: Vec<Vec<char>> = Vec::new();
    let mut i: usize = 0;
    while i < kept
        invariant
            kept <= n == ps@.len(),
            ks.len() == kept,
            forall|j: int| 0 <= j < kept ==> ks[j] == ps@[j]@,
            i <= kept,
            views(res@) == ks.take(i as int).map(
                |j: int, p: Seq<char>| if j < n - 1 { strip_cr(p) } else { p },
            ),
        decreases kept - i,
    {
        let p = &ps[i];
        let m = p.len();
        let mut line: Vec<char> = Vec::new();
        let stop: usize = if i < n - 1 && m > 0 && p[m - 1] == '\r' {
            m - 1
        } else {
            m
        };
        let mut k: usize = 0;
        while k < stop
            invariant
                stop <= m == p@.len(),
                k <= stop,
                line@ == p@.take(k as int),
            decreases stop - k,
        {
            line.push(p[k]);
            assert(p@.take(k + 1) == p@.take(k as int).push(p@[k as int]));
            k = k + 1;
        }
        proof {
            assert(line@ == (if i < n - 1 { strip_cr(p@) } else { p@ }));
        }
        res.push(line);
        proof {
            let f = |j: int, p: Seq<char>| if j < n - 1 { strip_cr(p) } else { p };
            assert(ks.take(i + 1).map(f) =~= ks.take(i as int).map(f).push(f(i as int, ks[i as int])));
            assert(views(res@) =~= views(res@).drop_last().push(line@));
        }
        i = i + 1;
    }
    assert(ks.take(kept as int) == ks);
    res
}

/// Whether two character sequences are equal.
pub fn chars_eq(a: &[char], b: &[char]) -> (res: bool)
    ensures
        res == (a@ == b@),
{
    if a.len() != b.len() {
        return false;
    }
    let mut i: usize = 0;
    while i < a.len()
        invariant
            a@.len() == b@.len(),
            i <= a@.len(),
            forall|j: int| 0 <= j < i ==> a@[j] == b@[j],
        decreases a@.len() - i,
    {
        if a[i] != b[i] {
            return false;
        }
        i = i + 1;
    }
    assert(a@ =~= b@);
    true
}

/// `parts` joined with `sep` between consecutive parts.
pub open spec fn join(parts: Seq<Seq<char>>, sep: Seq<char>) -> Seq<char>
    decreases parts.len(),
{
    if parts.len() == 0 {
        Seq::empty()
    } else if parts.len() == 1 {
        parts[0]
    } else {
        join(parts.drop_last(), sep) + sep + parts.last()
    }
}

/// The character sequences of a vector of strings.
pub open spec fn string_views(v: Seq<String>) -> Seq<Seq<char>> {
    v.map_values(|s: String| s@)
}

/// `Itertools::join`: the strings in order, with `sep` written between two
/// consecutive ones (and the empty string for no string at all).
#[verifier::external_body]
pub(crate) fn join_strings(parts: &Vec<String>, sep: &str) -> (res: String)
    ensures
        res@ == join(string_views(parts@), sep@),
{
    itertools::Itertools::join(&mut parts.iter(), sep)
}

/// Appends `tail` to `s`.
pub fn append_str(s: &mut String, tail: &str)
    ensures
        final(s)@ == old(s)@ + tail@,
{
    s.append(tail);
}


/// The message of an integer parsing error (as `ParseIntError` displays it).
pub open spec fn int_error_message(kind: IntErrorKind) -> Seq<char> {
    match kind {
        IntErrorKind::Empty => "cannot parse integer from empty string"@,
        IntErrorKind::InvalidDigit => "invalid digit found in string"@,
        IntErrorKind::PosOverflow => "number too large to fit in target type"@,
        IntErrorKind::NegOverflow => "number too small to fit in target type"@,
    }
}

/// The message of an integer parsing error.
pub fn int_error_text(kind: IntErrorKind) -> (res: String)
    ensures
        res@ == int_error_message(kind),
{
    match kind {
        IntErrorKind::Empty => "cannot parse integer from empty string".to_owned(),
        IntErrorKind::InvalidDigit => "invalid digit found in string".to_owned(),
        IntErrorKind::PosOverflow => "number too large to fit in target type".to_owned(),
        IntErrorKind::NegOverflow => "number too small to fit in target type".to_owned(),
    }
}

/// The position of the first `c` in `s`.
pub open spec fn first_index(s: Seq<char>, c: char) -> Option<int>
    decreases s.len(),
{
    if s.len() == 0 {
        None
    } else if s[0] == c {
        Some(0)
    } else {
        match first_index(s.drop_first(), c) {
            Some(i) => Some(i + 1),
            None => None,
        }
    }
}

/// `s` split around its first `c` (as `str::split_once`).
pub open spec fn split_once(s: Seq<char>, c: char) -> Option<(Seq<char>, Seq<char>)> {
    match first_index(s, c) {
        Some(i) => Some((s.take(i), s.skip(i + 1))),
        None => None,
    }
}

/// Splits `cs` around its first `c`.
pub fn split_once_chars(cs: &[char], c: char) -> (res: Option<(Vec<char>, Vec<char>)>)
    ensures
        match res {
            Some((a, b)) => split_once(cs@, c) == Some((a@, b@)),
            None => split_once(cs@, c) is None,
        },
{
    let mut i: usize = 0;
    assert(cs@.skip(0) == cs@);
    while i < cs.len()
        invariant
            i <= cs@.len(),
            forall|j: int| 0 <= j < i ==> cs@[j] != c,
            first_index(cs@, c) == match first_index(cs@.skip(i as int), c) {
                Some(k) => Some(k + i),
                None => None::<int>,
            },
        decreases cs@.len() - i,
    {
        assert(cs@.skip(i as int).drop_first() == cs@.skip(i + 1));
        if cs[i] == c {
            let mut a: Vec<char> = Vec::new();
            let mut k: usize = 0;
            while k < i
                invariant
                    k <= i < cs@.len(),
                    a@ == cs@.take(k as int),
                decreases i - k,
            {
                a.push(cs[k]);
                assert(cs@.take(k + 1) == cs@.take(k as int).push(cs@[k as int]));
                k = k + 1;
            }
            let mut b: Vec<char> = Vec::new();
            let mut m: usize = i + 1;
            while m < cs.len()
                invariant
                    i + 1 <= m <= cs@.len(),
                    b@ == cs@.subrange(i + 1, m as int),
                decreases cs@.len() - m,
            {
                b.push(cs[m]);
                m = m + 1;
            }
            assert(b@ == cs@.skip(i + 1));
            return Some((a, b));
        }
        i = i + 1;
    }
    None
}

/// Whether `c` occurs in `cs`.
pub fn contains_char(cs: &[char], c: char) -> (res: bool)
    ensures
        res == cs@.contains(c),
{
    let mut i: usize = 0;
    while i < cs.len()
        invariant
            i <= cs@.len(),
            forall|j: int| 0 <= j < i ==> cs@[j] != c,
        decreases cs@.len() - i,
    {
        if cs[i] == c {
            return true;
        }
        i = i + 1;
    }
    false
}

} // verus!
