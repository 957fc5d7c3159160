//! Character-level text handling used by the header and routing code:
//! comparison, prefixes, ASCII case folding, white space, splitting,
//! and decimal / hexadecimal numerals.
use vstd::prelude::*;
use vstd::utf8::encode_utf8;
use crate::bridge::push_char;

verus! {

// ------------------------------------------------------------------
// Building and reading strings
// ------------------------------------------------------------------

/// The characters of `s`, in order.
pub fn chars_of(s: &str) -> (res: Vec<char>)
    ensures
        res@ == s@,
{
    let mut res: Vec<char> = Vec::new();
    for c in it: s.chars()
        invariant
            res@ == it.seq().take(it.index() as int),
    {
        res.push(c);
    }
    res
}

/// Whether two character sequences are equal.
pub fn chars_eq(x: &[char], y: &[char]) -> (res: bool)
    ensures
        res == (x@ == y@),
{
    if x.len() != y.len() {
        return false;
    }
    let mut i: usize = 0;
    while i < x.len()
        invariant
            i <= x@.len(),
            x@.len() == y@.len(),
            forall|j: int| 0 <= j < i ==> x@[j] == y@[j],
        decreases x@.len() - i,
    {
        if x[i] != y[i] {
            return false;
        }
        i = i + 1;
    }
    assert(x@ =~= y@);
    true
}

/// Whether two strings hold the same characters.
pub fn str_eq(a: &str, b: &str) -> (res: bool)
    ensures
        res == (a@ == b@),
{
    let x = chars_of(a);
    let y = chars_of(b);
    chars_eq(x.as_slice(), y.as_slice())
}

/// Whether `s` begins with `prefix` (std's `str::starts_with` for a string pattern).
pub fn starts_with(s: &str, prefix: &str) -> (res: bool)
    ensures
        res == prefix@.is_prefix_of(s@),
{
    let x = chars_of(s);
    let p = chars_of(prefix);
    if p.len() > x.len() {
        return false;
    }
    let mut i: usize = 0;
    while i < p.len()
        invariant
            i <= p@.len(),
            p@.len() <= x@.len(),
            x@ == s@,
            p@ == prefix@,
            forall|j: int| 0 <= j < i ==> p@[j] == x@[j],
        decreases p@.len() - i,
    {
        if p[i] != x[i] {
            assert(x@.subrange(0, p@.len() as int)[i as int] == x@[i as int]);
            assert(!(p@ =~= x@.subrange(0, p@.len() as int)));
            return false;
        }
        i = i + 1;
    }
    assert(p@ =~= x@.subrange(0, p@.len() as int));
    true
}

/// Whether `s` ends with `suffix` (std's `str::ends_with` for a string pattern).
pub fn ends_with(s: &str, suffix: &str) -> (res: bool)
    ensures
        res == suffix@.is_suffix_of(s@),
{
    let x = chars_of(s);
    let p = chars_of(suffix);
    if p.len() > x.len() {
        return false;
    }
    let off = x.len() - p.len();
    let mut i: usize = 0;
    while i < p.len()
        invariant
            i <= p@.len(),
            off + p@.len() == x@.len(),
            off + p.len() == x.len(),
            x@ == s@,
            p@ == suffix@,
            forall|j: int| 0 <= j < i ==> p@[j] == x@[off + j],
        decreases p@.len() - i,
    {
        if p[i] != x[off + i] {
            assert(x@.subrange(off as int, x@.len() as int)[i as int] == x@[off + i]);
            assert(!(p@ =~= x@.subrange(off as int, x@.len() as int)));
            return false;
        }
        i = i + 1;
    }
    assert(p@ =~= x@.subrange(off as int, x@.len() as int));
    true
}

// ------------------------------------------------------------------
// ASCII case
// ------------------------------------------------------------------

pub open spec fn ascii_lower_char(c: char) -> char {
    if 'A' <= c && c <= 'Z' {
        ((c as u32) + 32) as char
    } else {
        c
    }
}

/// std's `to_ascii_lowercase`: 'A'..='Z' become 'a'..='z', every other
/// character stays as it is.
pub open spec fn ascii_lower(s: Seq<char>) -> Seq<char> {
    Seq::new(s.len(), |i: int| ascii_lower_char(s[i]))
}

pub fn to_ascii_lowercase(s: &str) -> (res: String)
    ensures
        res@ == ascii_lower(s@),
{
    let cs = chars_of(s);
    let mut res = String::new();
    let mut i: usize = 0;
    while i < cs.len()
        invariant
            i <= cs@.len(),
            cs@ == s@,
            res@ == ascii_lower(s@).take(i as int),
        decreases cs@.len() - i,
    {
        let c = cs[i];
        let l = if 'A' <= c && c <= 'Z' {
            ((c as u32) + 32) as u8 as char
        } else {
            c
        };
        assert(l == ascii_lower_char(c)) by {
            if 'A' <= c && c <= 'Z' {
                assert(((c as u32) + 32) as u8 as u32 == (c as u32) + 32);
            }
        }
        push_char(&mut res, l);
        i = i + 1;
        assert(ascii_lower(s@).take(i as int) =~= ascii_lower(s@).take(i - 1).push(l));
    }
    assert(ascii_lower(s@).take(cs@.len() as int) =~= ascii_lower(s@));
    res
}

// ------------------------------------------------------------------
// White space
// ------------------------------------------------------------------

/// The Unicode `White_Space` property, as std's `char::is_whitespace` reads it.
pub open spec fn is_white_space(c: char) -> bool {
    ||| ('\u{9}' <= c && c <= '\u{d}')
    ||| c == ' '
    ||| c == '\u{85}'
    ||| c == '\u{a0}'
    ||| c == '\u{1680}'
    ||| ('\u{2000}' <= c && c <= '\u{200a}')
    ||| c == '\u{2028}'
    ||| c == '\u{2029}'
    ||| c == '\u{202f}'
    ||| c == '\u{205f}'
    ||| c == '\u{3000}'
}

pub fn is_whitespace(c: char) -> (res: bool)
    ensures
        res == is_white_space(c),
{
    ('\u{9}' <= c && c <= '\u{d}') || c == ' ' || c == '\u{85}' || c == '\u{a0}' || c
        == '\u{1680}' || ('\u{2000}' <= c && c <= '\u{200a}') || c == '\u{2028}' || c
        == '\u{2029}' || c == '\u{202f}' || c == '\u{205f}' || c == '\u{3000}'
}

/// `s` without its white-space characters.
pub open spec fn strip_white_space(s: Seq<char>) -> Seq<char> {
    s.filter(|c: char| !is_white_space(c))
}

// ------------------------------------------------------------------
// Splitting
// ------------------------------------------------------------------

/// std's `str::split` with a single-character pattern: the pieces between
/// the separators, so that a string without the separator is one piece
/// and the empty string is one empty piece.
pub open spec fn split_on(s: Seq<char>, sep: char) -> Seq<Seq<char>>
    decreases s.len(),
{
    if s.len() == 0 {
        seq![Seq::<char>::empty()]
    } else {
        let init = split_on(s.drop_last(), sep);
        if s.last() == sep {
            init.push(Seq::<char>::empty())
        } else {
            init.update(init.len() - 1, init.last().push(s.last()))
        }
    }
}

/// The comma-separated pieces of `s` once its white space is removed.
pub open spec fn comma_list(s: Seq<char>) -> Seq<Seq<char>> {
    split_on(strip_white_space(s), ',')
}

/// The characters of `s` that are not white space.
pub fn remove_whitespace(s: &str) -> (res: Vec<char>)
    ensures
        res@ == strip_white_space(s@),
{
    let cs = chars_of(s);
    let mut res: Vec<char> = Vec::new();
    let mut i: usize = 0;
    while i < cs.len()
        invariant
            i <= cs@.len(),
            cs@ == s@,
            res@ == strip_white_space(cs@.take(i as int)),
        decreases cs@.len() - i,
    {
        let c = cs[i];
        proof {
            assert(cs@.take(i + 1).drop_last() =~= cs@.take(i as int));
            reveal_with_fuel(Seq::<_>::filter, 1);
        }
        if !is_whitespace(c) {
            res.push(c);
        }
        i = i + 1;
    }
    assert(cs@.take(cs@.len() as int) =~= cs@);
    res
}

/// The views of a vector of strings.
pub open spec fn views(v: Seq<String>) -> Seq<Seq<char>> {
    Seq::new(v.len(), |i: int| v[i]@)
}

/// Splits a character sequence at every occurrence of `sep`.
pub fn split_chars(cs: &[char], sep: char) -> (res: Vec<String>)
    ensures
        views(res@) == split_on(cs@, sep),
{
    let mut parts: Vec<String> = Vec::new();
    let mut cur = String::new();
    let mut i: usize = 0;
    while i < cs.len()
        invariant
            i <= cs@.len(),
            views(parts@).push(cur@) == split_on(cs@.take(i as int), sep),
        decreases cs@.len() - i,
    {
        let c = cs[i];
        let ghost before = views(parts@).push(cur@);
        proof {
            assert(cs@.take(i + 1).drop_last() =~= cs@.take(i as int));
            assert(cs@.take(i + 1).last() == c);
        }
        if c == sep {
            let done = cur;
            parts.push(done);
            cur = String::new();
            assert(views(parts@).push(cur@) =~= before.push(Seq::<char>::empty()));
        } else {
            push_char(&mut cur, c);
            assert(views(parts@).push(cur@) =~= before.update(
                before.len() - 1,
                before.last().push(c),
            ));
        }
        i = i + 1;
    }
    parts.push(cur);
    assert(cs@.take(cs@.len() as int) =~= cs@);
    assert(views(parts@) =~= split_on(cs@, sep));
    parts
}

// ------------------------------------------------------------------
// Removing every occurrence of a pattern
// ------------------------------------------------------------------

/// std's `str::replace(pattern, "")`: the leftmost non-overlapping
/// occurrences of `pat` are taken out; an empty pattern changes nothing.
pub open spec fn remove_matches(s: Seq<char>, pat: Seq<char>) -> Seq<char>
    decreases s.len(),
{
    if pat.len() == 0 || s.len() < pat.len() {
        s
    } else if s.take(pat.len() as int) == pat {
        remove_matches(s.skip(pat.len() as int), pat)
    } else {
        seq![s[0]] + remove_matches(s.drop_first(), pat)
    }
}

/// Whether `pat` occurs in `cs` at position `at`.
fn matches_at(cs: &[char], pat: &[char], at: usize) -> (res: bool)
    requires
        at <= cs@.len(),
    ensures
        res == (pat@.len() > 0 && cs@.len() - at >= pat@.len() && cs@.skip(at as int).take(
            pat@.len() as int,
        ) == pat@),
{
    if pat.len() == 0 || cs.len() - at < pat.len() {
        return false;
    }
    let mut j: usize = 0;
    while j < pat.len()
        invariant
            j <= pat@.len(),
            at + pat.len() <= cs.len(),
            forall|k: int| 0 <= k < j ==> cs@[at + k] == pat@[k],
        decreases pat@.len() - j,
    {
        if cs[at + j] != pat[j] {
            assert(cs@.skip(at as int).take(pat@.len() as int)[j as int] != pat@[j as int]);
            return false;
        }
        j = j + 1;
    }
    assert(cs@.skip(at as int).take(pat@.len() as int) =~= pat@);
    true
}

/// `s` with every occurrence of `pat` taken out.
pub fn remove_all(s: &str, pat: &str) -> (res: String)
    ensures
        res@ == remove_matches(s@, pat@),
{
    let cs = chars_of(s);
    let ps = chars_of(pat);
    let mut out = String::new();
    let mut i: usize = 0;
    assert(cs@.skip(0) =~= cs@);
    assert(out@ + remove_matches(cs@, ps@) =~= remove_matches(cs@, ps@));
    while i < cs.len()
        invariant
            i <= cs@.len(),
            cs@ == s@,
            ps@ == pat@,
            out@ + remove_matches(cs@.skip(i as int), ps@) == remove_matches(cs@, ps@),
        decreases cs@.len() - i,
    {
        let ghost rest = cs@.skip(i as int);
        if matches_at(cs.as_slice(), ps.as_slice(), i) {
            assert(rest.skip(ps@.len() as int) =~= cs@.skip(i + ps@.len()));
            i = i + ps.len();
        } else {
            let c = cs[i];
            proof {
                assert(rest.drop_first() =~= cs@.skip(i + 1));
                if ps@.len() > 0 && rest.len() >= ps@.len() {
                    assert(rest.take(ps@.len() as int) != ps@);
                }
                assert(remove_matches(rest, ps@) =~= if ps@.len() == 0 || rest.len() < ps@.len() {
                    rest
                } else {
                    seq![c] + remove_matches(rest.drop_first(), ps@)
                });
                if ps@.len() == 0 || rest.len() < ps@.len() {
                    lemma_remove_matches_short(rest.drop_first(), ps@);
                    assert(rest =~= seq![c] + rest.drop_first());
                }
            }
            push_char(&mut out, c);
            i = i + 1;
        }
    }
    assert(cs@.skip(cs@.len() as int) =~= Seq::<char>::empty());
    assert(out@ + Seq::<char>::empty() =~= out@);
    out
}

/// With an empty pattern, or a string shorter than it, nothing is removed.
proof fn lemma_remove_matches_short(s: Seq<char>, pat: Seq<char>)
    requires
        pat.len() == 0 || s.len() < pat.len(),
    ensures
        remove_matches(s, pat) == s,
{
}

// ------------------------------------------------------------------
// Decimal numerals
// ------------------------------------------------------------------

pub open spec fn digit_char(d: nat) -> char {
    ((d + 48) as u8) as char
}

/// The decimal numeral of `n`, without sign or leading zeros.
pub open spec fn decimal(n: nat) -> Seq<char>
    decreases n,
{
    if n < 10 {
        seq![digit_char(n)]
    } else {
        decimal(n / 10).push(digit_char(n % 10))
    }
}

pub open spec fn is_digit(c: char) -> bool {
    '0' <= c && c <= '9'
}

pub open spec fn digit_value(c: char) -> nat {
    ((c as u32) - 48) as nat
}

/// The number that a sequence of decimal digits denotes.
pub open spec fn digits_value(s: Seq<char>) -> nat
    decreases s.len(),
{
    if s.len() == 0 {
        0
    } else {
        digits_value(s.drop_last()) * 10 + digit_value(s.last())
    }
}

/// The digits after an optional leading '+'.
pub open spec fn unsigned_digits(s: Seq<char>) -> Seq<char> {
    if s.len() > 0 && s[0] == '+' {
        s.drop_first()
    } else {
        s
    }
}

/// std's `usize::from_str`: an optional '+' and then one or more decimal
/// digits whose value fits in a `usize`; anything else is refused.
pub open spec fn parse_usize(s: Seq<char>) -> Option<nat> {
    let d = unsigned_digits(s);
    if d.len() > 0 && (forall|i: int| 0 <= i < d.len() ==> is_digit(#[trigger] d[i]))
        && digits_value(d) <= usize::MAX {
        Some(digits_value(d))
    } else {
        None
    }
}

proof fn lemma_digit_char(d: nat)
    requires
        d < 10,
    ensures
        is_digit(digit_char(d)),
        digit_value(digit_char(d)) == d,
{
    assert(((d + 48) as u8) as char as u32 == d + 48);
}

proof fn lemma_digits_value_push(s: Seq<char>, c: char)
    ensures
        digits_value(s.push(c)) == digits_value(s) * 10 + digit_value(c),
{
    assert(s.push(c).drop_last() =~= s);
}

/// The numeral of `n` is a non-empty string of digits that denotes `n`.
pub proof fn lemma_decimal_digits(n: nat)
    ensures
        decimal(n).len() >= 1,
        forall|i: int| 0 <= i < decimal(n).len() ==> is_digit(#[trigger] decimal(n)[i]),
        digits_value(decimal(n)) == n,
    decreases n,
{
    if n < 10 {
        lemma_digit_char(n);
        lemma_digits_value_push(Seq::<char>::empty(), digit_char(n));
        assert(seq![digit_char(n)] =~= Seq::<char>::empty().push(digit_char(n)));
    } else {
        lemma_decimal_digits(n / 10);
        lemma_digit_char(n % 10);
        lemma_digits_value_push(decimal(n / 10), digit_char(n % 10));
        assert(decimal(n) == decimal(n / 10).push(digit_char(n % 10)));
    }
}

/// Law: a number written out in decimal, as `usize_to_string` writes it,
/// reads back as the same number, as `parse_usize_str` reads it.
pub proof fn lemma_parse_decimal(n: usize)
    ensures
        parse_usize(decimal(n as nat)) == Some(n as nat),
{
    lemma_decimal_digits(n as nat);
    let d = decimal(n as nat);
    assert(is_digit(d[0]));
    assert(unsigned_digits(d) == d);
}

/// Appends the decimal numeral of `n` to `out`.
fn push_decimal(out: &mut String, n: usize)
    ensures
        final(out)@ == old(out)@ + decimal(n as nat),
    decreases n,
{
    if n >= 10 {
        push_decimal(out, n / 10);
    }
    let d = (n % 10) as u8;
    push_char(out, (d + 48) as char);
    assert(old(out)@ + decimal(n as nat) =~= final(out)@) by {
        if n >= 10 {
            assert(decimal(n as nat) == decimal((n / 10) as nat).push(digit_char((n % 10) as nat)));
        }
    }
}

/// std's `usize::to_string`.
pub fn usize_to_string(n: usize) -> (res: String)
    ensures
        res@ == decimal(n as nat),
{
    let mut res = String::new();
    push_decimal(&mut res, n);
    assert(Seq::<char>::empty() + decimal(n as nat) =~= decimal(n as nat));
    res
}

proof fn lemma_digits_value_prefix_monotone(s: Seq<char>, i: int)
    requires
        0 <= i <= s.len(),
    ensures
        digits_value(s.take(i)) <= digits_value(s),
    decreases s.len() - i,
{
    if i < s.len() {
        lemma_digits_value_prefix_monotone(s, i + 1);
        assert(s.take(i + 1).drop_last() =~= s.take(i));
    }
    assert(s.take(s.len() as int) =~= s);
}

/// Parses a `usize` written as std's `usize::from_str` accepts it.
pub fn parse_usize_str(s: &str) -> (res: Option<usize>)
    ensures
        res matches Some(v) ==> parse_usize(s@) == Some(v as nat),
        res is None ==> parse_usize(s@) is None,
{
    let cs = chars_of(s);
    let start: usize = if cs.len() > 0 && cs[0] == '+' {
        1
    } else {
        0
    };
    let ghost d = unsigned_digits(s@);
    assert(d =~= cs@.skip(start as int));
    if start >= cs.len() {
        return None;
    }
    let mut value: usize = 0;
    let mut i: usize = start;
    while i < cs.len()
        invariant
            start <= i <= cs@.len(),
            cs@ == s@,
            d == cs@.skip(start as int),
            d == unsigned_digits(s@),
            value as nat == digits_value(d.take(i - start)),
            forall|k: int| 0 <= k < i - start ==> is_digit(#[trigger] d[k]),
        decreases cs@.len() - i,
    {
        let c = cs[i];
        assert(d[i - start] == c);
        if !('0' <= c && c <= '9') {
            assert(!is_digit(d[i - start]));
            return None;
        }
        let dv = (c as u32 - 48) as usize;
        assert(d.take(i - start + 1).drop_last() =~= d.take(i - start));
        assert(d.take(i - start + 1).last() == c);
        assert(digit_value(c) == dv);
        if value > (usize::MAX - dv) / 10 {
            proof {
                assert(digits_value(d.take(i - start + 1)) == value * 10 + dv);
                assert(value * 10 + dv > usize::MAX) by (nonlinear_arith)
                    requires
                        value > (usize::MAX - dv) / 10,
                        dv <= 9,
                ;
                lemma_digits_value_prefix_monotone(d, i - start + 1);
            }
            return None;
        }
        assert(value * 10 + dv <= usize::MAX) by (nonlinear_arith)
            requires
                value <= (usize::MAX - dv) / 10,
                dv <= 9,
        ;
        value = value * 10 + dv;
        i = i + 1;
    }
    assert(d.take(d.len() as int) =~= d);
    Some(value)
}

// ------------------------------------------------------------------
// Hexadecimal numerals, as bytes
// ------------------------------------------------------------------

pub open spec fn hex_digit(d: nat) -> u8 {
    if d < 10 {
        (d + 48) as u8
    } else {
        (d + 87) as u8
    }
}

/// The lower-case hexadecimal numeral of `n` in ASCII, as `format!("{:x}", n)`
/// writes it.
pub open spec fn hex_ascii(n: nat) -> Seq<u8>
    decreases n,
{
    if n < 16 {
        seq![hex_digit(n)]
    } else {
        hex_ascii(n / 16).push(hex_digit(n % 16))
    }
}

/// The value of an ASCII lower-case hexadecimal digit.
pub open spec fn hex_value(b: u8) -> nat {
    if 48 <= b && b <= 57 {
        (b - 48) as nat
    } else {
        (b - 87) as nat
    }
}

/// Whether a byte is an ASCII lower-case hexadecimal digit.
pub open spec fn is_hex_digit(b: u8) -> bool {
    (48 <= b && b <= 57) || (97 <= b && b <= 102)
}

/// The number that a sequence of hexadecimal digits denotes.
pub open spec fn hex_digits_value(s: Seq<u8>) -> nat
    decreases s.len(),
{
    if s.len() == 0 {
        0
    } else {
        hex_digits_value(s.drop_last()) * 16 + hex_value(s.last())
    }
}

proof fn lemma_hex_digit(d: nat)
    requires
        d < 16,
    ensures
        is_hex_digit(hex_digit(d)),
        hex_value(hex_digit(d)) == d,
        hex_digit(d) == 48u8 <==> d == 0,
{
}

/// Law: the hexadecimal numeral of `n` is a non-empty string of lower-case
/// hexadecimal digits, without a leading zero unless `n` is zero, that
/// denotes `n`.
pub proof fn lemma_hex_ascii(n: nat)
    ensures
        hex_ascii(n).len() >= 1,
        forall|i: int| 0 <= i < hex_ascii(n).len() ==> is_hex_digit(#[trigger] hex_ascii(n)[i]),
        hex_ascii(n)[0] == 48u8 <==> n == 0,
        hex_digits_value(hex_ascii(n)) == n,
    decreases n,
{
    if n < 16 {
        lemma_hex_digit(n);
        let one = seq![hex_digit(n)];
        assert(one.drop_last() =~= Seq::<u8>::empty());
        assert(one.last() == hex_digit(n));
        assert(hex_digits_value(one) == hex_digits_value(one.drop_last()) * 16 + hex_value(one.last()));
    } else {
        lemma_hex_digit(n % 16);
        lemma_hex_ascii(n / 16);
        let h = hex_ascii(n / 16);
        assert(hex_ascii(n) == h.push(hex_digit(n % 16)));
        assert(h.push(hex_digit(n % 16)).drop_last() =~= h);
        assert(hex_ascii(n)[0] == h[0]);
        assert(hex_ascii(n).last() == hex_digit(n % 16));
        assert(hex_digits_value(hex_ascii(n)) == hex_digits_value(h) * 16 + hex_value(hex_digit(n % 16)));
        assert(n == (n / 16) * 16 + n % 16);
    }
}

/// Appends the hexadecimal numeral of `n` to `out`.
pub fn push_hex(out: &mut Vec<u8>, n: usize)
    ensures
        final(out)@ == old(out)@ + hex_ascii(n as nat),
    decreases n,
{
    if n >= 16 {
        push_hex(out, n / 16);
    }
    let d = (n % 16) as u8;
    let b = if d < 10 {
        d + 48
    } else {
        d + 87
    };
    out.push(b);
    assert(old(out)@ + hex_ascii(n as nat) =~= final(out)@) by {
        if n >= 16 {
            assert(hex_ascii(n as nat) == hex_ascii((n / 16) as nat).push(hex_digit((n % 16) as nat)));
        }
    }
}

// ------------------------------------------------------------------
// Bytes
// ------------------------------------------------------------------

/// Appends the bytes of `data` to `out`.
pub fn push_bytes(out: &mut Vec<u8>, data: &[u8])
    ensures
        final(out)@ == old(out)@ + data@,
{
    let mut i: usize = 0;
    while i < data.len()
        invariant
            i <= data@.len(),
            out@ == old(out)@ + data@.take(i as int),
        decreases data@.len() - i,
    {
        out.push(data[i]);
        i = i + 1;
        assert(old(out)@ + data@.take(i as int) =~= (old(out)@ + data@.take(i - 1)).push(data@[i - 1]));
    }
    assert(data@.take(data@.len() as int) =~= data@);
}

/// Appends the UTF-8 encoding of `s` to `out`.
pub fn push_str_bytes(out: &mut Vec<u8>, s: &str)
    ensures
        final(out)@ == old(out)@ + encode_utf8(s@),
{
    push_bytes(out, s.as_bytes());
}

/// The UTF-8 encoding of `s` (std's `String::into_bytes`).
pub fn utf8_bytes(s: &str) -> (res: Vec<u8>)
    ensures
        res@ == encode_utf8(s@),
{
    let mut out: Vec<u8> = Vec::new();
    push_str_bytes(&mut out, s);
    assert(Seq::<u8>::empty() + encode_utf8(s@) =~= encode_utf8(s@));
    out
}

} // verus!
