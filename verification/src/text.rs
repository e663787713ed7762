//! Character-level string helpers shared by the rest of the library:
//! decimal rendering and parsing, whitespace trimming, ASCII case folding,
//! joining and padding.

use vstd::prelude::*;

verus! {

// ------------------------------------------------------------------------------
// Decimal digits
// ------------------------------------------------------------------------------

/// The ASCII character of the decimal digit `d` (meaningful for `d < 10`).
pub open spec fn digit_char(d: nat) -> char {
    (d + 48) as char
}

/// Whether `c` is one of the ASCII digits `0` to `9`.
pub open spec fn is_digit(c: char) -> bool {
    '0' <= c && c <= '9'
}

/// The value of the ASCII digit `c`.
pub open spec fn digit_of(c: char) -> nat {
    (c as int - 48) as nat
}

/// Whether every character of `s` is an ASCII digit.
pub open spec fn all_digits(s: Seq<char>) -> bool {
    forall|i: int| 0 <= i < s.len() ==> is_digit(#[trigger] s[i])
}

/// The number written by the digit string `s` in base ten (leading zeros allowed).
pub open spec fn digits_value(s: Seq<char>) -> nat
    decreases s.len(),
{
    if s.len() == 0 {
        0
    } else {
        digits_value(s.drop_last()) * 10 + digit_of(s.last())
    }
}

/// The shortest base-ten rendering of `n`, without sign or leading zeros.
pub open spec fn decimal(n: nat) -> Seq<char>
    decreases n,
{
    if n < 10 {
        seq![digit_char(n)]
    } else {
        decimal(n / 10).push(digit_char(n % 10))
    }
}

/// The rendering of a number is a non-empty digit string that reads back as the number.
pub proof fn lemma_decimal_reads_back(n: nat)
    ensures
        decimal(n).len() > 0,
        all_digits(decimal(n)),
        digits_value(decimal(n)) == n,
    decreases n,
{
    lemma_digit_char(n % 10);
    if n >= 10 {
        lemma_decimal_reads_back(n / 10);
        let d = decimal(n);
        assert(d.drop_last() =~= decimal(n / 10));
        assert(d.last() == digit_char(n % 10));
        assert(digits_value(d) == digits_value(decimal(n / 10)) * 10 + n % 10);
        assert(n == (n / 10) * 10 + n % 10) by (nonlinear_arith);
        assert forall|i: int| 0 <= i < d.len() implies is_digit(#[trigger] d[i]) by {
            if i < d.len() - 1 {
                assert(d[i] == decimal(n / 10)[i]);
            }
        }
    } else {
        assert(n % 10 == n);
        assert(decimal(n).drop_last() =~= Seq::<char>::empty());
        assert(digits_value(Seq::<char>::empty()) == 0);
    }
}

/// The digit character of a digit reads back as that digit.
pub proof fn lemma_digit_char(d: nat)
    requires
        d < 10,
    ensures
        is_digit(digit_char(d)),
        digit_of(digit_char(d)) == d,
{
    assert((d + 48) as char as int == d + 48);
}

/// Appending digits never makes the value of a digit string smaller.
pub proof fn lemma_digits_value_prefix(s: Seq<char>, i: int)
    requires
        0 <= i <= s.len(),
        all_digits(s),
    ensures
        digits_value(s.take(i)) <= digits_value(s),
    decreases s.len() - i,
{
    if i < s.len() {
        lemma_digits_value_prefix(s, i + 1);
        assert(s.take(i + 1).drop_last() =~= s.take(i));
    } else {
        assert(s.take(i) =~= s);
    }
}

/// The character of a single digit.
fn digit_str(d: usize) -> (s: &'static str)
    requires
        d < 10,
    ensures
        s@ == seq![digit_char(d as nat)],
{
    proof {
        reveal_strlit("0");
        reveal_strlit("1");
        reveal_strlit("2");
        reveal_strlit("3");
        reveal_strlit("4");
        reveal_strlit("5");
        reveal_strlit("6");
        reveal_strlit("7");
        reveal_strlit("8");
        reveal_strlit("9");
    }
    match d {
        0 => "0",
        1 => "1",
        2 => "2",
        3 => "3",
        4 => "4",
        5 => "5",
        6 => "6",
        7 => "7",
        8 => "8",
        _ => "9",
    }
}

/// Appends the base-ten rendering of `n` to `out`.
pub fn push_decimal(out: &mut String, n: usize)
    ensures
        final(out)@ == old(out)@ + decimal(n as nat),
    decreases n,
{
    if n >= 10 {
        push_decimal(out, n / 10);
    }
    out.append(digit_str(n % 10));
    proof {
        if n >= 10 {
            assert(decimal(n as nat) == decimal((n / 10) as nat).push(digit_char((n % 10) as nat)));
        }
    }
}

/// The base-ten rendering of `n`, as `n.to_string()` gives it.
pub fn usize_to_string(n: usize) -> (s: String)
    ensures
        s@ == decimal(n as nat),
{
    let mut s = String::new();
    push_decimal(&mut s, n);
    s
}

/// The digit part of an unsigned number: `s` without one leading `+`.
pub open spec fn unsigned_digits(s: Seq<char>) -> Seq<char> {
    if s.len() > 0 && s[0] == '+' {
        s.drop_first()
    } else {
        s
    }
}

/// What `str::parse::<u16>` accepts: an optional `+`, then at least one ASCII
/// digit, with a value that fits in 16 bits.
pub open spec fn spec_parse_u16(s: Seq<char>) -> Option<u16> {
    let d = unsigned_digits(s);
    if d.len() > 0 && all_digits(d) && digits_value(d) <= 65535 {
        Some(digits_value(d) as u16)
    } else {
        None
    }
}

/// Law: the decimal text of a 16-bit number parses back to that number.
pub proof fn law_u16_text_round_trip(p: u16)
    ensures
        spec_parse_u16(decimal(p as nat)) == Some(p),
{
    lemma_decimal_reads_back(p as nat);
    let d = decimal(p as nat);
    assert(unsigned_digits(d) == d) by {
        assert(is_digit(d[0]));
    }
}

/// Parses a port number the way `str::parse::<u16>` does.
pub fn parse_u16(s: &str) -> (res: Option<u16>)
    ensures
        res == spec_parse_u16(s@),
{
    let v = chars_of(s);
    let n = v.len();
    let start: usize = if n > 0 && v[0] == '+' {
        1
    } else {
        0
    };
    let ghost d = unsigned_digits(s@);
    assert(d =~= v@.skip(start as int));
    if start >= n {
        assert(d.len() == 0);
        return None;
    }
    let mut acc: u32 = 0;
    let mut i: usize = start;
    while i < n
        invariant
            start <= i <= n,
            n == v@.len(),
            v@ == s@,
            d == unsigned_digits(s@),
            d =~= v@.skip(start as int),
            all_digits(v@.subrange(start as int, i as int)),
            acc == digits_value(v@.subrange(start as int, i as int)),
            acc <= 65535,
        decreases n - i,
    {
        let c = v[i];
        if c < '0' || c > '9' {
            assert(d[i - start] == c);
            assert(!all_digits(d));
            return None;
        }
        let digit = (c as u32) - 48;
        assert(v@.subrange(start as int, i + 1).drop_last() =~= v@.subrange(
            start as int,
            i as int,
        ));
        acc = acc * 10 + digit;
        if acc > 65535 {
            proof {
                assert(v@.subrange(start as int, i + 1) =~= d.take(i + 1 - start));
                if all_digits(d) {
                    lemma_digits_value_prefix(d, i + 1 - start);
                }
            }
            return None;
        }
        i = i + 1;
    }
    assert(v@.subrange(start as int, n as int) =~= d);
    Some(acc as u16)
}

// ------------------------------------------------------------------------------
// Whitespace
// ------------------------------------------------------------------------------

/// The characters with the Unicode `White_Space` property, which is what
/// `char::is_whitespace` tests.
pub open spec fn is_white_space(c: char) -> bool {
    ||| '\u{9}' <= c && c <= '\u{d}'
    ||| c == ' '
    ||| c == '\u{85}'
    ||| c == '\u{a0}'
    ||| c == '\u{1680}'
    ||| '\u{2000}' <= c && c <= '\u{200a}'
    ||| c == '\u{2028}'
    ||| c == '\u{2029}'
    ||| c == '\u{202f}'
    ||| c == '\u{205f}'
    ||| c == '\u{3000}'
}

/// Tests `is_white_space`.
pub fn white_space(c: char) -> (b: bool)
    ensures
        b == is_white_space(c),
{
    ('\u{9}' <= c && c <= '\u{d}') || c == ' ' || c == '\u{85}' || c == '\u{a0}' || c == '\u{1680}'
        || ('\u{2000}' <= c && c <= '\u{200a}') || c == '\u{2028}' || c == '\u{2029}' || c
        == '\u{202f}' || c == '\u{205f}' || c == '\u{3000}'
}

/// `s` without its leading whitespace.
pub open spec fn trim_start(s: Seq<char>) -> Seq<char>
    decreases s.len(),
{
    if s.len() > 0 && is_white_space(s[0]) {
        trim_start(s.drop_first())
    } else {
        s
    }
}

/// `s` without its trailing whitespace.
pub open spec fn trim_end(s: Seq<char>) -> Seq<char>
    decreases s.len(),
{
    if s.len() > 0 && is_white_space(s.last()) {
        trim_end(s.drop_last())
    } else {
        s
    }
}

/// `s` without leading and trailing whitespace, as `str::trim` gives it.
pub open spec fn trim(s: Seq<char>) -> Seq<char> {
    trim_end(trim_start(s))
}

/// The characters of `s` without leading and trailing whitespace.
pub fn trimmed_chars(s: &str) -> (t: Vec<char>)
    ensures
        t@ == trim(s@),
{
    let v = chars_of(s);
    let n = v.len();
    let mut i: usize = 0;
    assert(v@.skip(0) =~= v@);
    while i < n && white_space(v[i])
        invariant
            i <= n,
            n == v@.len(),
            trim_start(v@) == trim_start(v@.skip(i as int)),
        decreases n - i,
    {
        assert(v@.skip(i as int).drop_first() =~= v@.skip(i + 1));
        i = i + 1;
    }
    assert(trim_start(v@) =~= v@.subrange(i as int, n as int)) by {
        if i == n {
            assert(v@.skip(i as int).len() == 0);
        }
        assert(v@.skip(i as int) =~= v@.subrange(i as int, n as int));
    }
    let mut j: usize = n;
    while j > i && white_space(v[j - 1])
        invariant
            i <= j <= n,
            n == v@.len(),
            trim(v@) == trim_end(v@.subrange(i as int, j as int)),
        decreases j,
    {
        assert(v@.subrange(i as int, j as int).drop_last() =~= v@.subrange(i as int, j - 1));
        j = j - 1;
    }
    let mut t: Vec<char> = Vec::new();
    let mut k: usize = i;
    while k < j
        invariant
            i <= k <= j <= n,
            n == v@.len(),
            t@ =~= v@.subrange(i as int, k as int),
        decreases j - k,
    {
        t.push(v[k]);
        k = k + 1;
    }
    t
}

/// Whether `s` begins with the characters of `p`.
pub fn starts_with_chars(s: &Vec<char>, p: &Vec<char>) -> (b: bool)
    ensures
        b == p@.is_prefix_of(s@),
{
    if p.len() > s.len() {
        return false;
    }
    let mut i: usize = 0;
    while i < p.len()
        invariant
            i <= p@.len() <= s@.len(),
            forall|k: int| 0 <= k < i ==> p@[k] == s@[k],
        decreases p.len() - i,
    {
        if p[i] != s[i] {
            return false;
        }
        i = i + 1;
    }
    assert(p@ =~= s@.subrange(0, p@.len() as int));
    true
}

// ------------------------------------------------------------------------------
// ASCII case folding
// ------------------------------------------------------------------------------

/// `c` with an ASCII capital letter turned into its small letter.
pub open spec fn ascii_lower(c: char) -> char {
    if 'A' <= c && c <= 'Z' {
        (c as int + 32) as char
    } else {
        c
    }
}

/// Whether `s` and `t` are equal once ASCII letters are folded to small letters.
pub open spec fn eq_ignore_ascii_case(s: Seq<char>, t: Seq<char>) -> bool {
    s.len() == t.len() && forall|i: int| 0 <= i < s.len() ==> ascii_lower(#[trigger] s[i])
        == ascii_lower(t[i])
}

/// Texts equal up to ASCII case match the same texts up to ASCII case.
pub proof fn lemma_eq_ignore_ascii_case_same(s: Seq<char>, t: Seq<char>, u: Seq<char>)
    requires
        eq_ignore_ascii_case(s, t),
    ensures
        eq_ignore_ascii_case(s, u) == eq_ignore_ascii_case(t, u),
{
    if eq_ignore_ascii_case(s, u) {
        assert forall|i: int| 0 <= i < t.len() implies ascii_lower(#[trigger] t[i]) == ascii_lower(
            u[i],
        ) by {
            assert(ascii_lower(s[i]) == ascii_lower(t[i]));
        }
    }
    if eq_ignore_ascii_case(t, u) {
        assert forall|i: int| 0 <= i < s.len() implies ascii_lower(#[trigger] s[i]) == ascii_lower(
            u[i],
        ) by {
            assert(ascii_lower(t[i]) == ascii_lower(u[i]));
        }
    }
}

/// Folds an ASCII capital letter to its small letter.
pub fn to_ascii_lower(c: char) -> (r: char)
    ensures
        r == ascii_lower(c),
{
    if 'A' <= c && c <= 'Z' {
        ((c as u32) + 32) as u8 as char
    } else {
        c
    }
}

/// Compares two character strings, ignoring ASCII case.
pub fn chars_eq_ignore_ascii_case(s: &Vec<char>, t: &Vec<char>) -> (b: bool)
    ensures
        b == eq_ignore_ascii_case(s@, t@),
{
    if s.len() != t.len() {
        return false;
    }
    let mut i: usize = 0;
    while i < s.len()
        invariant
            i <= s@.len() == t@.len(),
            forall|k: int| 0 <= k < i ==> ascii_lower(#[trigger] s@[k]) == ascii_lower(t@[k]),
        decreases s.len() - i,
    {
        if to_ascii_lower(s[i]) != to_ascii_lower(t[i]) {
            return false;
        }
        i = i + 1;
    }
    true
}

/// Whether some run of characters in `hay` equals `needle` once ASCII case is ignored.
pub open spec fn contains_ignore_ascii_case(hay: Seq<char>, needle: Seq<char>) -> bool {
    exists|i: int|
        0 <= i && i + needle.len() <= hay.len() && #[trigger] eq_ignore_ascii_case(
            hay.subrange(i, i + needle.len()),
            needle,
        )
}

/// Searches `hay` for `needle`, ignoring ASCII case.
pub fn chars_contains_ignore_ascii_case(hay: &Vec<char>, needle: &Vec<char>) -> (b: bool)
    ensures
        b == contains_ignore_ascii_case(hay@, needle@),
{
    if needle.len() > hay.len() {
        return false;
    }
    let hay_len = hay.len();
    let last = hay_len - needle.len();
    let mut i: usize = 0;
    loop
        invariant
            i <= last,
            hay_len == hay@.len(),
            last + needle@.len() == hay@.len(),
            forall|k: int|
                0 <= k < i ==> !#[trigger] eq_ignore_ascii_case(
                    hay@.subrange(k, k + needle@.len()),
                    needle@,
                ),
        decreases last - i,
    {
        let mut j: usize = 0;
        let mut same = true;
        while j < needle.len()
            invariant
                i <= last,
                hay_len == hay@.len(),
                last + needle@.len() == hay@.len(),
                j <= needle@.len(),
                same ==> forall|k: int|
                    0 <= k < j ==> ascii_lower(#[trigger] hay@[i + k]) == ascii_lower(needle@[k]),
                !same ==> !eq_ignore_ascii_case(hay@.subrange(i as int, i + needle@.len()), needle@),
            decreases needle.len() - j,
        {
            assert(i + j < hay@.len());
            if same && to_ascii_lower(hay[i + j]) != to_ascii_lower(needle[j]) {
                same = false;
                assert(hay@.subrange(i as int, i + needle@.len())[j as int] == hay@[i + j]);
            }
            j = j + 1;
        }
        if same {
            assert forall|k: int| 0 <= k < needle@.len() implies ascii_lower(
                #[trigger] hay@.subrange(i as int, i + needle@.len())[k],
            ) == ascii_lower(needle@[k]) by {
                assert(hay@.subrange(i as int, i + needle@.len())[k] == hay@[i + k]);
            }
            assert(eq_ignore_ascii_case(hay@.subrange(i as int, i + needle@.len()), needle@));
            return true;
        }
        if i == last {
            assert forall|k: int|
                0 <= k && k + needle@.len() <= hay@.len() implies !#[trigger] eq_ignore_ascii_case(
                hay@.subrange(k, k + needle@.len()),
                needle@,
            ) by {
                assert(k < i || k == i);
            }
            return false;
        }
        i = i + 1;
    }
}

// ------------------------------------------------------------------------------
// Building strings
// ------------------------------------------------------------------------------

/// `n` copies of the character `0`.
pub open spec fn zeros(n: nat) -> Seq<char> {
    Seq::new(n, |i: int| '0')
}

/// Appends `n` zeros to `out`, as `"0".repeat(n)` would give them.
pub fn push_zeros(out: &mut String, n: usize)
    ensures
        final(out)@ == old(out)@ + zeros(n as nat),
{
    proof {
        reveal_strlit("0");
    }
    let mut k: usize = 0;
    while k < n
        invariant
            k <= n,
            out@ =~= old(out)@ + zeros(k as nat),
        decreases n - k,
    {
        assert(zeros((k + 1) as nat) =~= zeros(k as nat).push('0'));
        proof {
            reveal_strlit("0");
        }
        out.append("0");
        k = k + 1;
    }
}

/// The strings of `parts`, with `sep` between each two neighbours.
pub open spec fn seq_join(parts: Seq<Seq<char>>, sep: Seq<char>) -> Seq<char>
    decreases parts.len(),
{
    if parts.len() == 0 {
        seq![]
    } else if parts.len() == 1 {
        parts[0]
    } else {
        seq_join(parts.drop_last(), sep) + sep + parts.last()
    }
}

/// The views of a list of strings.
pub open spec fn views(v: Seq<String>) -> Seq<Seq<char>> {
    v.map_values(|s: String| s@)
}

/// Joins `parts` with `sep`, as `parts.join(sep)` does.
pub fn join(parts: &Vec<String>, sep: &str) -> (res: String)
    ensures
        res@ == seq_join(views(parts@), sep@),
{
    let mut res = String::new();
    let ghost all = views(parts@);
    let mut i: usize = 0;
    while i < parts.len()
        invariant
            i <= parts@.len(),
            all == views(parts@),
            res@ == seq_join(all.take(i as int), sep@),
        decreases parts.len() - i,
    {
        proof {
            assert(all.take(i + 1).drop_last() =~= all.take(i as int));
            assert(all.take(i + 1).last() == parts@[i as int]@);
        }
        if i > 0 {
            res.append(sep);
        } else {
            assert(all.take(1) =~= seq![parts@[0]@]);
        }
        res.append(parts[i].as_str());
        i = i + 1;
    }
    assert(all.take(parts@.len() as int) =~= all);
    res
}

/// Copies the characters of `s` into a vector.
pub fn chars_of(s: &str) -> (v: Vec<char>)
    ensures
        v@ == s@,
{
    let mut v: Vec<char> = Vec::new();
    for c in it: s.chars()
        invariant
            v@ == it.seq().take(it.index() as int),
            it.seq() == s@,
    {
        v.push(c);
    }
    v
}

// ------------------------------------------------------------------------------
// UTF-8 lengths
// ------------------------------------------------------------------------------

/// The number of bytes UTF-8 spends on `c`, as `char::len_utf8` gives it.
pub open spec fn utf8_width(c: char) -> nat {
    if (c as u32) < 0x80 {
        1
    } else if (c as u32) < 0x800 {
        2
    } else if (c as u32) < 0x10000 {
        3
    } else {
        4
    }
}

/// The number of bytes of the UTF-8 encoding of `s`, as `str::len` gives it.
pub open spec fn utf8_len(s: Seq<char>) -> nat
    decreases s.len(),
{
    if s.len() == 0 {
        0
    } else {
        utf8_len(s.drop_last()) + utf8_width(s.last())
    }
}

/// Whether byte offset `n` of the UTF-8 encoding of `s` falls between two
/// characters, as `str::is_char_boundary` tests it.
pub open spec fn is_byte_boundary(s: Seq<char>, n: nat) -> bool {
    exists|m: int| 0 <= m <= s.len() && #[trigger] utf8_len(s.take(m)) == n
}

/// The number of characters of `s` that the first `n` bytes of its encoding hold.
pub open spec fn chars_in_bytes(s: Seq<char>, n: nat) -> int {
    choose|m: int| 0 <= m <= s.len() && #[trigger] utf8_len(s.take(m)) == n
}

/// Computes `utf8_width`.
pub fn char_utf8_width(c: char) -> (w: usize)
    ensures
        w == utf8_width(c),
        1 <= w <= 4,
{
    let u = c as u32;
    if u < 0x80 {
        1
    } else if u < 0x800 {
        2
    } else if u < 0x10000 {
        3
    } else {
        4
    }
}

/// Every character takes at least one byte, so longer prefixes take strictly more bytes.
pub proof fn lemma_utf8_len_take_increasing(s: Seq<char>, a: int, b: int)
    requires
        0 <= a < b <= s.len(),
    ensures
        utf8_len(s.take(a)) < utf8_len(s.take(b)),
    decreases b - a,
{
    assert(s.take(b).drop_last() =~= s.take(b - 1));
    if a < b - 1 {
        lemma_utf8_len_take_increasing(s, a, b - 1);
    }
}

/// A prefix never takes more bytes than the whole.
pub proof fn lemma_utf8_len_take_le(s: Seq<char>, a: int)
    requires
        0 <= a <= s.len(),
    ensures
        utf8_len(s.take(a)) <= utf8_len(s),
{
    assert(s.take(s.len() as int) =~= s);
    if a < s.len() {
        lemma_utf8_len_take_increasing(s, a, s.len() as int);
    }
}

/// Byte lengths add up over concatenation.
pub proof fn lemma_utf8_len_concat(a: Seq<char>, b: Seq<char>)
    ensures
        utf8_len(a + b) == utf8_len(a) + utf8_len(b),
    decreases b.len(),
{
    if b.len() == 0 {
        assert(a + b =~= a);
    } else {
        lemma_utf8_len_concat(a, b.drop_last());
        assert((a + b).drop_last() =~= a + b.drop_last());
        assert((a + b).last() == b.last());
    }
}

/// A string of zeros takes one byte per character.
pub proof fn lemma_utf8_len_zeros(n: nat)
    ensures
        utf8_len(zeros(n)) == n,
    decreases n,
{
    if n > 0 {
        lemma_utf8_len_zeros((n - 1) as nat);
        assert(zeros(n).drop_last() =~= zeros((n - 1) as nat));
        assert(('0' as u32) < 0x80);
    }
}

} // verus!
