//! Character-sequence helpers: decimal rendering, ASCII case folding, the
//! whitespace that `str::trim` removes, prefixes, searches and number parsing.
use vstd::prelude::*;

verus! {

/// The decimal digit character for `d < 10`.
pub open spec fn digit_char(d: nat) -> char {
    if d == 0 {
        '0'
    } else if d == 1 {
        '1'
    } else if d == 2 {
        '2'
    } else if d == 3 {
        '3'
    } else if d == 4 {
        '4'
    } else if d == 5 {
        '5'
    } else if d == 6 {
        '6'
    } else if d == 7 {
        '7'
    } else if d == 8 {
        '8'
    } else {
        '9'
    }
}

/// Decimal rendering of a natural number, without sign or leading zeros.
pub open spec fn decimal(n: nat) -> Seq<char>
    decreases n,
{
    if n < 10 {
        seq![digit_char(n)]
    } else {
        decimal(n / 10).push(digit_char(n % 10))
    }
}

/// Decimal rendering of an integer, with a leading `-` for negative values.
pub open spec fn signed_decimal(n: int) -> Seq<char> {
    if n < 0 {
        seq!['-'] + decimal((-n) as nat)
    } else {
        decimal(n as nat)
    }
}

fn digit(d: u64) -> (c: char)
    requires
        d < 10,
    ensures
        c == digit_char(d as nat),
{
    if d == 0 {
        '0'
    } else if d == 1 {
        '1'
    } else if d == 2 {
        '2'
    } else if d == 3 {
        '3'
    } else if d == 4 {
        '4'
    } else if d == 5 {
        '5'
    } else if d == 6 {
        '6'
    } else if d == 7 {
        '7'
    } else if d == 8 {
        '8'
    } else {
        '9'
    }
}

/// Appends the decimal digits of `n` to `out`.
pub fn push_decimal(out: &mut Vec<char>, n: u64)
    ensures
        final(out)@ == old(out)@ + decimal(n as nat),
    decreases n,
{
    if n >= 10 {
        push_decimal(out, n / 10);
    }
    out.push(digit(n % 10));
    assert(decimal(n as nat) =~= if n < 10 {
        seq![digit_char(n as nat)]
    } else {
        decimal((n / 10) as nat).push(digit_char((n % 10) as nat))
    });
}

/// Appends the decimal rendering of a signed value to `out`.
pub fn push_signed_decimal(out: &mut Vec<char>, n: i64)
    ensures
        final(out)@ == old(out)@ + signed_decimal(n as int),
{
    if n < 0 {
        out.push('-');
        let magnitude: u64 = if n == i64::MIN {
            0x8000_0000_0000_0000u64
        } else {
            (-n) as u64
        };
        push_decimal(out, magnitude);
    } else {
        push_decimal(out, n as u64);
    }
}

/// Appends the characters of `s` to `out`.
pub fn push_str(out: &mut Vec<char>, s: &str)
    ensures
        final(out)@ == old(out)@ + s@,
{
    let chars = str_chars(s);
    push_all(out, &chars);
}

/// Appends all of `src` to `out`.
pub fn push_all(out: &mut Vec<char>, src: &Vec<char>)
    ensures
        final(out)@ == old(out)@ + src@,
{
    let ghost start = out@;
    let mut i: usize = 0;
    while i < src.len()
        invariant
            i <= src@.len(),
            out@ == start + src@.subrange(0, i as int),
        decreases src.len() - i,
    {
        out.push(src[i]);
        assert(src@.subrange(0, i + 1) =~= src@.subrange(0, i as int).push(src@[i as int]));
        i += 1;
    }
    assert(src@.subrange(0, src@.len() as int) =~= src@);
}

/// The characters of `s`, in order (`str::chars`).
#[verifier::external_body]
pub(crate) fn str_chars(s: &str) -> (out: Vec<char>)
    ensures
        out@ == s@,
{
    s.chars().collect()
}

/// The `String` made of the characters of `chars` (`FromIterator<char>`).
#[verifier::external_body]
pub(crate) fn chars_to_string(chars: &Vec<char>) -> (s: String)
    ensures
        s@ == chars@,
{
    chars.iter().collect()
}

/// The `String` holding `s` (`str::to_owned`).
pub fn owned(s: &str) -> (out: String)
    ensures
        out@ == s@,
{
    s.to_owned()
}

/// Concatenation `a + b` as a `String`.
pub fn concat2(a: &str, b: &str) -> (s: String)
    ensures
        s@ == a@ + b@,
{
    let mut v = Vec::new();
    push_str(&mut v, a);
    push_str(&mut v, b);
    assert(Seq::<char>::empty() + a@ + b@ =~= a@ + b@);
    chars_to_string(&v)
}

/// `prefix` followed by the decimal digits of `n` and `suffix`.
pub fn with_number(prefix: &str, n: u64, suffix: &str) -> (s: String)
    ensures
        s@ == prefix@ + decimal(n as nat) + suffix@,
{
    let mut v = Vec::new();
    push_str(&mut v, prefix);
    push_decimal(&mut v, n);
    push_str(&mut v, suffix);
    assert(Seq::<char>::empty() + prefix@ + decimal(n as nat) + suffix@ =~= prefix@ + decimal(
        n as nat,
    ) + suffix@);
    chars_to_string(&v)
}


// ---------------------------------------------------------------------------
// Whitespace and trimming
// ---------------------------------------------------------------------------

/// The characters with the Unicode `White_Space` property, which
/// `char::is_whitespace` accepts and `str::trim` removes.
pub open spec fn is_white(c: char) -> bool {
    ||| ('\u{9}' <= c && c <= '\u{d}')
    ||| c == ' '
    ||| c == '\u{85}'
    ||| c == '\u{a0}'
    ||| c == '\u{1680}'
    ||| ('\u{2000}' <= c && c <= '\u{200a}')
    ||| c == '\u{2028}'
    ||| c == '\u{2029}'
    ||| c == '\u{202f}'
    ||| c == '\u{205f}'
    ||| c == '\u{3000}'
}

/// `s` without its leading whitespace.
pub open spec fn trim_start(s: Seq<char>) -> Seq<char>
    decreases s.len(),
{
    if s.len() > 0 && is_white(s[0]) {
        trim_start(s.drop_first())
    } else {
        s
    }
}

/// `s` without its trailing whitespace.
pub open spec fn trim_end(s: Seq<char>) -> Seq<char>
    decreases s.len(),
{
    if s.len() > 0 && is_white(s.last()) {
        trim_end(s.drop_last())
    } else {
        s
    }
}

/// `s` without leading and trailing whitespace (`str::trim`).
pub open spec fn trim(s: Seq<char>) -> Seq<char> {
    trim_end(trim_start(s))
}

/// `s` without any leading or trailing `c` (`str::trim_matches` with a char).
pub open spec fn trim_char(s: Seq<char>, c: char) -> Seq<char> {
    trim_end_char(trim_start_char(s, c), c)
}

/// `s` without its leading copies of `c` (`str::trim_start_matches`).
pub open spec fn trim_start_char(s: Seq<char>, c: char) -> Seq<char>
    decreases s.len(),
{
    if s.len() > 0 && s[0] == c {
        trim_start_char(s.drop_first(), c)
    } else {
        s
    }
}

/// `s` without its trailing copies of `c` (`str::trim_end_matches`).
pub open spec fn trim_end_char(s: Seq<char>, c: char) -> Seq<char>
    decreases s.len(),
{
    if s.len() > 0 && s.last() == c {
        trim_end_char(s.drop_last(), c)
    } else {
        s
    }
}

/// Whether `c` is whitespace (`char::is_whitespace`).
pub fn is_whitespace(c: char) -> (b: bool)
    ensures
        b == is_white(c),
{
    ('\u{9}' <= c && c <= '\u{d}') || c == ' ' || c == '\u{85}' || c == '\u{a0}' || c
        == '\u{1680}' || ('\u{2000}' <= c && c <= '\u{200a}') || c == '\u{2028}' || c
        == '\u{2029}' || c == '\u{202f}' || c == '\u{205f}' || c == '\u{3000}'
}

proof fn lemma_trim_start_skip(s: Seq<char>, i: int)
    requires
        0 <= i <= s.len(),
        forall|k: int| 0 <= k < i ==> is_white(#[trigger] s[k]),
    ensures
        trim_start(s) == trim_start(s.subrange(i, s.len() as int)),
    decreases i,
{
    if i > 0 {
        assert(s.drop_first().subrange(i - 1, s.drop_first().len() as int) =~= s.subrange(
            i,
            s.len() as int,
        ));
        lemma_trim_start_skip(s.drop_first(), i - 1);
    } else {
        assert(s.subrange(0, s.len() as int) =~= s);
    }
}

proof fn lemma_trim_end_skip(s: Seq<char>, j: int)
    requires
        0 <= j <= s.len(),
        forall|k: int| j <= k < s.len() ==> is_white(#[trigger] s[k]),
    ensures
        trim_end(s) == trim_end(s.subrange(0, j)),
    decreases s.len() - j,
{
    if j < s.len() {
        assert(s.drop_last().subrange(0, j) =~= s.subrange(0, j));
        lemma_trim_end_skip(s.drop_last(), j);
    } else {
        assert(s.subrange(0, j) =~= s);
    }
}

proof fn lemma_trim_start_char_skip(s: Seq<char>, c: char, i: int)
    requires
        0 <= i <= s.len(),
        forall|k: int| 0 <= k < i ==> #[trigger] s[k] == c,
    ensures
        trim_start_char(s, c) == trim_start_char(s.subrange(i, s.len() as int), c),
    decreases i,
{
    if i > 0 {
        assert(s.drop_first().subrange(i - 1, s.drop_first().len() as int) =~= s.subrange(
            i,
            s.len() as int,
        ));
        lemma_trim_start_char_skip(s.drop_first(), c, i - 1);
    } else {
        assert(s.subrange(0, s.len() as int) =~= s);
    }
}

proof fn lemma_trim_end_char_skip(s: Seq<char>, c: char, j: int)
    requires
        0 <= j <= s.len(),
        forall|k: int| j <= k < s.len() ==> #[trigger] s[k] == c,
    ensures
        trim_end_char(s, c) == trim_end_char(s.subrange(0, j), c),
    decreases s.len() - j,
{
    if j < s.len() {
        assert(s.drop_last().subrange(0, j) =~= s.subrange(0, j));
        lemma_trim_end_char_skip(s.drop_last(), c, j);
    } else {
        assert(s.subrange(0, j) =~= s);
    }
}

/// The characters `v[lo..hi]` as a new vector.
pub fn chars_range(v: &Vec<char>, lo: usize, hi: usize) -> (out: Vec<char>)
    requires
        lo <= hi <= v@.len(),
    ensures
        out@ == v@.subrange(lo as int, hi as int),
{
    let mut out = Vec::new();
    let mut i = lo;
    while i < hi
        invariant
            lo <= i <= hi <= v@.len(),
            out@ == v@.subrange(lo as int, i as int),
        decreases hi - i,
    {
        out.push(v[i]);
        assert(v@.subrange(lo as int, i + 1) =~= v@.subrange(lo as int, i as int).push(v@[i as int]));
        i += 1;
    }
    out
}

/// `v` without leading and trailing whitespace.
pub fn trim_chars(v: &Vec<char>) -> (out: Vec<char>)
    ensures
        out@ == trim(v@),
{
    let mut i: usize = 0;
    while i < v.len() && is_whitespace(v[i])
        invariant
            i <= v@.len(),
            forall|k: int| 0 <= k < i ==> is_white(#[trigger] v@[k]),
        decreases v.len() - i,
    {
        i += 1;
    }
    proof {
        lemma_trim_start_skip(v@, i as int);
    }
    let ghost rest = v@.subrange(i as int, v@.len() as int);
    assert(trim_start(rest) == rest);
    let mut j: usize = v.len();
    while j > i && is_whitespace(v[j - 1])
        invariant
            i <= j <= v@.len(),
            forall|k: int| j <= k < v@.len() ==> is_white(#[trigger] v@[k]),
        decreases j,
    {
        j -= 1;
    }
    proof {
        let r = v@.subrange(i as int, v@.len() as int);
        assert forall|k: int| (j - i) <= k < r.len() implies is_white(#[trigger] r[k]) by {
            assert(r[k] == v@[k + i]);
        }
        lemma_trim_end_skip(r, j - i);
        assert(r.subrange(0, j - i) =~= v@.subrange(i as int, j as int));
        let t = v@.subrange(i as int, j as int);
        assert(t.len() == 0 || !is_white(t.last()));
    }
    chars_range(v, i, j)
}

/// `s` without leading and trailing whitespace (`str::trim`).
pub fn trim_str(s: &str) -> (out: String)
    ensures
        out@ == trim(s@),
{
    let v = str_chars(s);
    let t = trim_chars(&v);
    chars_to_string(&t)
}

/// `v` without leading and trailing copies of `c`.
pub fn trim_char_chars(v: &Vec<char>, c: char) -> (out: Vec<char>)
    ensures
        out@ == trim_char(v@, c),
{
    let mut i: usize = 0;
    while i < v.len() && v[i] == c
        invariant
            i <= v@.len(),
            forall|k: int| 0 <= k < i ==> #[trigger] v@[k] == c,
        decreases v.len() - i,
    {
        i += 1;
    }
    proof {
        lemma_trim_start_char_skip(v@, c, i as int);
    }
    let ghost rest = v@.subrange(i as int, v@.len() as int);
    assert(trim_start_char(rest, c) == rest);
    let mut j: usize = v.len();
    while j > i && v[j - 1] == c
        invariant
            i <= j <= v@.len(),
            forall|k: int| j <= k < v@.len() ==> #[trigger] v@[k] == c,
        decreases j,
    {
        j -= 1;
    }
    proof {
        let r = v@.subrange(i as int, v@.len() as int);
        assert forall|k: int| (j - i) <= k < r.len() implies #[trigger] r[k] == c by {
            assert(r[k] == v@[k + i]);
        }
        lemma_trim_end_char_skip(r, c, j - i);
        assert(r.subrange(0, j - i) =~= v@.subrange(i as int, j as int));
    }
    chars_range(v, i, j)
}

/// `v` without its leading copies of `c`.
pub fn trim_start_char_chars(v: &Vec<char>, c: char) -> (out: Vec<char>)
    ensures
        out@ == trim_start_char(v@, c),
{
    let mut i: usize = 0;
    while i < v.len() && v[i] == c
        invariant
            i <= v@.len(),
            forall|k: int| 0 <= k < i ==> #[trigger] v@[k] == c,
        decreases v.len() - i,
    {
        i += 1;
    }
    proof {
        lemma_trim_start_char_skip(v@, c, i as int);
    }
    chars_range(v, i, v.len())
}

// ---------------------------------------------------------------------------
// ASCII case and searching
// ---------------------------------------------------------------------------

/// The ASCII lowercase of `c` (`char::to_ascii_lowercase`).
pub open spec fn lower_char(c: char) -> char {
    if 'A' <= c && c <= 'Z' {
        ((c as u32) + 32) as char
    } else {
        c
    }
}

/// `s` with its ASCII letters lowercased (`str::to_ascii_lowercase`).
pub open spec fn ascii_lower(s: Seq<char>) -> Seq<char> {
    s.map_values(|c: char| lower_char(c))
}

/// Whether `p` occurs in `s` at position `i`.
pub open spec fn occurs_at(s: Seq<char>, p: Seq<char>, i: int) -> bool {
    0 <= i && i + p.len() <= s.len() && s.subrange(i, i + p.len()) == p
}

/// Whether `p` occurs somewhere in `s` (`str::contains`).
pub open spec fn contains(s: Seq<char>, p: Seq<char>) -> bool {
    exists|i: int| occurs_at(s, p, i)
}

/// Whether `s` starts with `p`.
pub open spec fn starts_with(s: Seq<char>, p: Seq<char>) -> bool {
    p.len() <= s.len() && s.subrange(0, p.len() as int) == p
}

/// The ASCII lowercase of one character.
pub fn to_lower(c: char) -> (r: char)
    ensures
        r == lower_char(c),
{
    if 'A' <= c && c <= 'Z' {
        let code: u32 = (c as u32) + 32;
        assert(code <= 0x7f);
        char_from_ascii(code)
    } else {
        c
    }
}

/// The character with ASCII code `code`.
fn char_from_ascii(code: u32) -> (c: char)
    requires
        code < 0x80,
    ensures
        c == code as char,
{
    let b: u8 = code as u8;
    b as char
}

/// `v` with its ASCII letters lowercased.
pub fn lower_chars(v: &Vec<char>) -> (out: Vec<char>)
    ensures
        out@ == ascii_lower(v@),
{
    let mut out = Vec::new();
    let mut i: usize = 0;
    while i < v.len()
        invariant
            i <= v@.len(),
            out@ == ascii_lower(v@.subrange(0, i as int)),
        decreases v.len() - i,
    {
        out.push(to_lower(v[i]));
        assert(ascii_lower(v@.subrange(0, i + 1)) =~= ascii_lower(v@.subrange(0, i as int)).push(
            lower_char(v@[i as int]),
        ));
        i += 1;
    }
    assert(v@.subrange(0, v@.len() as int) =~= v@);
    out
}

/// Whether `p` occurs in `s` at `i`, checked character by character.
pub fn matches_at(s: &Vec<char>, p: &Vec<char>, i: usize) -> (b: bool)
    ensures
        b == occurs_at(s@, p@, i as int),
{
    if p.len() > s.len() || i > s.len() - p.len() {
        return false;
    }
    let mut k: usize = 0;
    while k < p.len()
        invariant
            k <= p.len(),
            i + p.len() <= s.len(),
            forall|m: int| 0 <= m < k ==> s@[i + m] == p@[m],
        decreases p.len() - k,
    {
        let idx = i + k;
        if s[idx] != p[k] {
            assert(s@.subrange(i as int, i + p@.len())[k as int] != p@[k as int]);
            return false;
        }
        k += 1;
    }
    assert(s@.subrange(i as int, i + p@.len()) =~= p@);
    true
}

/// Whether `p` occurs somewhere in `s`.
pub fn contains_chars(s: &Vec<char>, p: &Vec<char>) -> (b: bool)
    ensures
        b == contains(s@, p@),
{
    if p.len() > s.len() {
        return false;
    }
    if p.len() == 0 {
        assert(s@.subrange(0, 0) =~= p@);
        assert(occurs_at(s@, p@, 0));
        return true;
    }
    let last = s.len() - p.len();
    let mut i: usize = 0;
    while i <= last
        invariant
            last == s@.len() - p@.len(),
            p@.len() >= 1,
            last < s.len(),
            i <= last + 1,
            forall|k: int| 0 <= k < i ==> !occurs_at(s@, p@, k),
        decreases last + 1 - i,
    {
        if matches_at(s, p, i) {
            return true;
        }
        i += 1;
    }
    assert forall|k: int| !occurs_at(s@, p@, k) by {
        if 0 <= k && k + p@.len() <= s@.len() {
            assert(k < i);
        }
    }
    false
}

/// Whether `s` starts with `p`.
pub fn starts_with_chars(s: &Vec<char>, p: &Vec<char>) -> (b: bool)
    ensures
        b == starts_with(s@, p@),
{
    let b = matches_at(s, p, 0);
    assert(b == starts_with(s@, p@));
    b
}

/// Whether `c` occurs in `v`.
pub fn has_char(v: &Vec<char>, c: char) -> (b: bool)
    ensures
        b == v@.contains(c),
{
    let mut i: usize = 0;
    while i < v.len()
        invariant
            i <= v@.len(),
            forall|k: int| 0 <= k < i ==> v@[k] != c,
        decreases v.len() - i,
    {
        if v[i] == c {
            assert(v@[i as int] == c);
            return true;
        }
        i += 1;
    }
    false
}

// ---------------------------------------------------------------------------
// Unsigned integer parsing (`str::parse` for unsigned types)
// ---------------------------------------------------------------------------

/// Why a text is not an unsigned integer, as `core::num::IntErrorKind` says.
#[derive(Clone, Copy, Debug, PartialEq, Eq)]
pub enum IntErrorKind {
    Empty,
    InvalidDigit,
    PosOverflow,
}

impl IntErrorKind {
    /// The message that `ParseIntError` displays for this kind.
    pub fn message(&self) -> (s: &'static str)
        ensures
            s@ == int_error_message(*self),
    {
        match self {
            IntErrorKind::Empty => "cannot parse integer from empty string",
            IntErrorKind::InvalidDigit => "invalid digit found in string",
            IntErrorKind::PosOverflow => "number too large to fit in target type",
        }
    }
}

/// The message of each parse error kind.
pub open spec fn int_error_message(k: IntErrorKind) -> Seq<char> {
    match k {
        IntErrorKind::Empty => "cannot parse integer from empty string"@,
        IntErrorKind::InvalidDigit => "invalid digit found in string"@,
        IntErrorKind::PosOverflow => "number too large to fit in target type"@,
    }
}

/// Whether `c` is an ASCII decimal digit.
pub open spec fn is_digit(c: char) -> bool {
    '0' <= c && c <= '9'
}

/// The value of the digit `c`.
pub open spec fn digit_value(c: char) -> nat {
    ((c as u32) - ('0' as u32)) as nat
}

/// The number of leading decimal digits of `s`.
pub open spec fn digit_run(s: Seq<char>) -> nat
    decreases s.len(),
{
    if s.len() > 0 && is_digit(s[0]) {
        1 + digit_run(s.drop_first())
    } else {
        0
    }
}

/// The value of a sequence of decimal digits.
pub open spec fn digits_value(s: Seq<char>) -> nat
    decreases s.len(),
{
    if s.len() == 0 {
        0
    } else {
        digits_value(s.drop_last()) * 10 + digit_value(s.last())
    }
}

/// What `str::parse` gives for an unsigned integer type whose largest value
/// is `max`: an optional `+`, then decimal digits, read left to right; the
/// first digit that takes the value above `max` is an overflow, the first
/// character that is not a digit an invalid digit.
pub open spec fn parse_unsigned(s: Seq<char>, max: nat) -> Result<nat, IntErrorKind> {
    if s.len() == 0 {
        Err(IntErrorKind::Empty)
    } else {
        parse_digits(strip_plus(s), max)
    }
}

/// `s` without one leading `+`.
pub open spec fn strip_plus(s: Seq<char>) -> Seq<char> {
    if s.len() > 0 && s[0] == '+' {
        s.drop_first()
    } else {
        s
    }
}

/// The digits `d` read left to right, as `parse_unsigned` reads them after
/// the sign.
pub open spec fn parse_digits(d: Seq<char>, max: nat) -> Result<nat, IntErrorKind> {
    let run = digit_run(d);
    if d.len() == 0 {
        Err(IntErrorKind::InvalidDigit)
    } else if digits_value(d.subrange(0, run as int)) > max {
        Err(IntErrorKind::PosOverflow)
    } else if run < d.len() {
        Err(IntErrorKind::InvalidDigit)
    } else {
        Ok(digits_value(d))
    }
}

pub proof fn lemma_digit_run_bound(s: Seq<char>)
    ensures
        digit_run(s) <= s.len(),
        forall|k: int| 0 <= k < digit_run(s) ==> is_digit(#[trigger] s[k]),
        digit_run(s) < s.len() ==> !is_digit(s[digit_run(s) as int]),
    decreases s.len(),
{
    if s.len() > 0 && is_digit(s[0]) {
        lemma_digit_run_bound(s.drop_first());
        assert forall|k: int| 0 <= k < digit_run(s) implies is_digit(#[trigger] s[k]) by {
            if k > 0 {
                assert(s[k] == s.drop_first()[k - 1]);
            }
        }
    }
}

pub proof fn lemma_digit_run_at(s: Seq<char>, i: int)
    requires
        0 <= i <= s.len(),
        forall|k: int| 0 <= k < i ==> is_digit(#[trigger] s[k]),
        i == s.len() || !is_digit(s[i]),
    ensures
        digit_run(s) == i,
    decreases i,
{
    if i > 0 {
        lemma_digit_run_at(s.drop_first(), i - 1);
    }
}

proof fn lemma_digits_value_monotone(s: Seq<char>, i: int, j: int)
    requires
        0 <= i <= j <= s.len(),
        forall|k: int| 0 <= k < s.len() ==> is_digit(#[trigger] s[k]),
    ensures
        digits_value(s.subrange(0, i)) <= digits_value(s.subrange(0, j)),
    decreases j - i,
{
    if i < j {
        lemma_digits_value_monotone(s, i, j - 1);
        assert(s.subrange(0, j).drop_last() =~= s.subrange(0, j - 1));
    }
}

/// Parses `s` as an unsigned integer no larger than `max`.
pub fn parse_unsigned_chars(s: &Vec<char>, max: u64) -> (r: Result<u64, IntErrorKind>)
    ensures
        match parse_unsigned(s@, max as nat) {
            Ok(v) => v <= max && r == Ok::<u64, IntErrorKind>(v as u64),
            Err(k) => r == Err::<u64, IntErrorKind>(k),
        },
{
    if s.len() == 0 {
        return Err(IntErrorKind::Empty);
    }
    let start: usize = if s[0] == '+' {
        1
    } else {
        0
    };
    let ghost d = strip_plus(s@);
    assert(d =~= s@.subrange(start as int, s@.len() as int));
    if start == s.len() {
        return Err(IntErrorKind::InvalidDigit);
    }
    let mut acc: u64 = 0;
    let mut i: usize = start;
    while i < s.len()
        invariant
            start <= i <= s@.len(),
            start < s@.len(),
            d == strip_plus(s@),
            d == s@.subrange(start as int, s@.len() as int),
            forall|k: int| 0 <= k < i - start ==> is_digit(#[trigger] d[k]),
            acc as nat == digits_value(d.subrange(0, i - start)),
            acc <= max,
        decreases s.len() - i,
    {
        let c = s[i];
        if !('0' <= c && c <= '9') {
            proof {
                assert(d[i - start] == c);
                lemma_digit_run_at(d, i - start);
                assert(digit_run(d) == i - start);
                assert(d.len() > 0);
                assert(digits_value(d.subrange(0, digit_run(d) as int)) <= max);
                assert(digit_run(d) < d.len());
                assert(parse_unsigned(s@, max as nat) == Err::<nat, IntErrorKind>(
                    IntErrorKind::InvalidDigit,
                ));
            }
            return Err(IntErrorKind::InvalidDigit);
        }
        let dv: u64 = (c as u32 - '0' as u32) as u64;
        proof {
            assert(d[i - start] == c);
            assert(d.subrange(0, i - start + 1).drop_last() =~= d.subrange(0, i - start));
            assert(d.subrange(0, i - start + 1).last() == c);
        }
        let next: u128 = acc as u128 * 10 + dv as u128;
        if next > max as u128 {
            proof {
                let run = digit_run(d);
                lemma_digit_run_bound(d);
                let m = i - start + 1;
                assert forall|k: int| 0 <= k < m implies is_digit(#[trigger] d[k]) by {}
                lemma_digit_run_prefix(d, m);
                let dd = d.subrange(0, run as int);
                assert forall|k: int| 0 <= k < dd.len() implies is_digit(#[trigger] dd[k]) by {}
                assert(dd.subrange(0, m) =~= d.subrange(0, m));
                assert(dd.subrange(0, run as int) =~= dd);
                lemma_digits_value_monotone(dd, m, run as int);
                assert(digits_value(d.subrange(0, m)) > max);
                assert(digits_value(dd) > max);
                assert(parse_unsigned(s@, max as nat) == Err::<nat, IntErrorKind>(
                    IntErrorKind::PosOverflow,
                ));
            }
            return Err(IntErrorKind::PosOverflow);
        }
        acc = next as u64;
        i += 1;
    }
    proof {
        lemma_digit_run_at(d, d.len() as int);
        assert(d.subrange(0, d.len() as int) =~= d);
        assert(parse_unsigned(s@, max as nat) == Ok::<nat, IntErrorKind>(acc as nat));
    }
    Ok(acc)
}

proof fn lemma_digit_run_prefix(d: Seq<char>, m: int)
    requires
        0 <= m <= d.len(),
        forall|k: int| 0 <= k < m ==> is_digit(#[trigger] d[k]),
    ensures
        m <= digit_run(d),
    decreases m,
{
    if m > 0 {
        lemma_digit_run_prefix(d.drop_first(), m - 1);
    }
}

/// Parses `s` as a `u64` (`str::parse::<u64>`).
pub fn parse_u64(s: &str) -> (r: Result<u64, IntErrorKind>)
    ensures
        match parse_unsigned(s@, u64::MAX as nat) {
            Ok(v) => v <= u64::MAX && r == Ok::<u64, IntErrorKind>(v as u64),
            Err(k) => r == Err::<u64, IntErrorKind>(k),
        },
{
    let v = str_chars(s);
    parse_unsigned_chars(&v, u64::MAX)
}

/// Whether two character vectors are equal.
pub fn chars_eq(a: &Vec<char>, b: &Vec<char>) -> (r: bool)
    ensures
        r == (a@ == b@),
{
    if a.len() != b.len() {
        return false;
    }
    let mut i: usize = 0;
    while i < a.len()
        invariant
            i <= a@.len(),
            a@.len() == b@.len(),
            forall|k: int| 0 <= k < i ==> a@[k] == b@[k],
        decreases a.len() - i,
    {
        if a[i] != b[i] {
            return false;
        }
        i += 1;
    }
    assert(a@ =~= b@);
    true
}

/// Whether `v` holds exactly the characters of `s`.
pub fn chars_eq_str(v: &Vec<char>, s: &str) -> (r: bool)
    ensures
        r == (v@ == s@),
{
    let w = str_chars(s);
    chars_eq(v, &w)
}

/// The number of leading decimal digits of `v`.
pub fn count_digits(v: &Vec<char>) -> (n: usize)
    ensures
        n == digit_run(v@),
        n <= v@.len(),
{
    let mut i: usize = 0;
    while i < v.len() && '0' <= v[i] && v[i] <= '9'
        invariant
            i <= v@.len(),
            forall|k: int| 0 <= k < i ==> is_digit(#[trigger] v@[k]),
        decreases v.len() - i,
    {
        i += 1;
    }
    proof {
        lemma_digit_run_at(v@, i as int);
    }
    i
}

// ---------------------------------------------------------------------------
// Float literals (`str::parse::<f32>` syntax)
// ---------------------------------------------------------------------------

/// `s` without one leading sign.
pub open spec fn strip_sign(s: Seq<char>) -> Seq<char> {
    if s.len() > 0 && (s[0] == '+' || s[0] == '-') {
        s.drop_first()
    } else {
        s
    }
}

/// An exponent after its `e`: an optional sign and at least one digit.
pub open spec fn exponent_ok(x: Seq<char>) -> bool {
    let y = strip_sign(x);
    y.len() > 0 && digit_run(y) == y.len()
}

/// Digits, an optional fraction and an optional exponent, with at least one
/// digit before the exponent.
pub open spec fn decimal_float(b: Seq<char>) -> bool {
    let r1 = digit_run(b) as int;
    let a1 = b.subrange(r1, b.len() as int);
    let has_dot = a1.len() > 0 && a1[0] == '.';
    let f = if has_dot {
        a1.drop_first()
    } else {
        a1
    };
    let r2 = if has_dot {
        digit_run(f) as int
    } else {
        0
    };
    let a2 = f.subrange(r2, f.len() as int);
    r1 + r2 > 0 && (a2.len() == 0 || ((a2[0] == 'e' || a2[0] == 'E') && exponent_ok(a2.drop_first())))
}

/// Whether `str::parse::<f32>` accepts `s`: a sign, then `inf`, `infinity`
/// or `nan` in any case, or a decimal number.
pub open spec fn is_float_text(s: Seq<char>) -> bool {
    let b = strip_sign(s);
    ascii_lower(b) == "inf"@ || ascii_lower(b) == "infinity"@ || ascii_lower(b) == "nan"@
        || decimal_float(b)
}

/// The message of a float that does not parse.
pub open spec fn float_error_message(s: Seq<char>) -> Seq<char> {
    if s.len() == 0 {
        "cannot parse float from empty string"@
    } else {
        "invalid float literal"@
    }
}

fn strip_sign_chars(v: &Vec<char>) -> (out: Vec<char>)
    ensures
        out@ == strip_sign(v@),
{
    if v.len() > 0 && (v[0] == '+' || v[0] == '-') {
        let r = chars_range(v, 1, v.len());
        assert(r@ =~= v@.drop_first());
        r
    } else {
        chars_range_all(v)
    }
}

fn chars_range_all(v: &Vec<char>) -> (out: Vec<char>)
    ensures
        out@ == v@,
{
    let r = chars_range(v, 0, v.len());
    assert(r@ =~= v@);
    r
}

fn exponent_ok_chars(x: &Vec<char>) -> (b: bool)
    ensures
        b == exponent_ok(x@),
{
    let y = strip_sign_chars(x);
    y.len() > 0 && count_digits(&y) == y.len()
}

fn decimal_float_chars(b: &Vec<char>) -> (ok: bool)
    ensures
        ok == decimal_float(b@),
{
    let r1 = count_digits(b);
    let a1 = chars_range(b, r1, b.len());
    let has_dot = a1.len() > 0 && a1[0] == '.';
    let f = if has_dot {
        let t = chars_range(&a1, 1, a1.len());
        assert(t@ =~= a1@.drop_first());
        t
    } else {
        chars_range_all(&a1)
    };
    let r2 = if has_dot {
        count_digits(&f)
    } else {
        0
    };
    let a2 = chars_range(&f, r2, f.len());
    if r1 + r2 == 0 {
        return false;
    }
    if a2.len() == 0 {
        return true;
    }
    if a2[0] == 'e' || a2[0] == 'E' {
        let rest = chars_range(&a2, 1, a2.len());
        assert(rest@ =~= a2@.drop_first());
        exponent_ok_chars(&rest)
    } else {
        false
    }
}

/// Whether `s` parses as an `f32`.
pub fn float_text_ok(s: &Vec<char>) -> (ok: bool)
    ensures
        ok == is_float_text(s@),
{
    let b = strip_sign_chars(s);
    let l = lower_chars(&b);
    chars_eq_str(&l, "inf") || chars_eq_str(&l, "infinity") || chars_eq_str(&l, "nan")
        || decimal_float_chars(&b)
}

/// Lossy UTF-8 rendering of `bytes`, as `String::from_utf8_lossy` computes it.
pub uninterp spec fn utf8_lossy(bytes: Seq<u8>) -> Seq<char>;

/// Decodes `bytes` with `String::from_utf8_lossy`; the contract names the
/// result, which depends on the bytes alone.
#[verifier::external_body]
pub(crate) fn lossy_string(bytes: &[u8]) -> (s: String)
    ensures
        s@ == utf8_lossy(bytes@),
{
    String::from_utf8_lossy(bytes).into_owned()
}

/// What `parse_unsigned` accepts is at most `max`.
pub proof fn lemma_parse_unsigned_bound(s: Seq<char>, max: nat)
    ensures
        parse_unsigned(s, max) matches Ok(v) ==> v <= max,
{
    if s.len() > 0 {
        let d = strip_plus(s);
        lemma_digit_run_bound(d);
        if parse_digits(d, max) is Ok {
            assert(digit_run(d) == d.len());
            assert(d.subrange(0, d.len() as int) =~= d);
        }
    }
}


// ---------------------------------------------------------------------------
// Splitting
// ---------------------------------------------------------------------------

/// The index of the first `c` in `s`, or its length.
pub open spec fn first_of(s: Seq<char>, c: char) -> nat
    decreases s.len(),
{
    if s.len() == 0 {
        0
    } else if s[0] == c {
        0
    } else {
        1 + first_of(s.drop_first(), c)
    }
}

/// `first_of` is the first position holding `c`.
pub proof fn lemma_first_of(s: Seq<char>, c: char, k: int)
    requires
        0 <= k <= s.len(),
        forall|i: int| 0 <= i < k ==> #[trigger] s[i] != c,
        k == s.len() || s[k] == c,
    ensures
        first_of(s, c) == k,
    decreases k,
{
    if k > 0 {
        lemma_first_of(s.drop_first(), c, k - 1);
    }
}

/// The index of the first `c` in `v`, or its length.
pub fn first_of_exec(v: &Vec<char>, c: char) -> (i: usize)
    ensures
        i == first_of(v@, c),
        i <= v@.len(),
{
    let mut i: usize = 0;
    while i < v.len() && v[i] != c
        invariant
            i <= v@.len(),
            forall|k: int| 0 <= k < i ==> #[trigger] v@[k] != c,
        decreases v.len() - i,
    {
        i += 1;
    }
    proof {
        lemma_first_of(v@, c, i as int);
    }
    i
}

/// The fields of `s` between `c` separators (`str::split(c)`).
pub open spec fn split_on(s: Seq<char>, c: char) -> Seq<Seq<char>>
    decreases s.len(),
{
    let i = first_of(s, c) as int;
    if i >= s.len() {
        seq![s]
    } else {
        seq![s.subrange(0, i)] + split_on(s.subrange(i + 1, s.len() as int), c)
    }
}

/// The view of a list of character vectors.
pub open spec fn fields_view(v: Seq<Vec<char>>) -> Seq<Seq<char>> {
    v.map_values(|f: Vec<char>| f@)
}

/// The fields of `v` between `c` separators.
pub fn split_chars(v: &Vec<char>, c: char) -> (fields: Vec<Vec<char>>)
    ensures
        fields_view(fields@) == split_on(v@, c),
{
    let mut fields: Vec<Vec<char>> = Vec::new();
    let mut start: usize = 0;
    proof {
        assert(v@.subrange(0, v@.len() as int) =~= v@);
        assert(fields_view(fields@) + split_on(v@, c) =~= split_on(v@, c));
    }
    loop
        invariant
            start <= v@.len(),
            fields_view(fields@) + split_on(v@.subrange(start as int, v@.len() as int), c) == split_on(v@, c),
        decreases v@.len() - start,
    {
        let ghost rest = v@.subrange(start as int, v@.len() as int);
        let mut k: usize = start;
        while k < v.len() && v[k] != c
            invariant
                start <= k <= v@.len(),
                forall|i: int| start <= i < k ==> #[trigger] v@[i] != c,
            decreases v.len() - k,
        {
            k += 1;
        }
        proof {
            assert forall|i: int| 0 <= i < k - start implies #[trigger] rest[i] != c by {
                assert(rest[i] == v@[start + i]);
            }
            if k < v@.len() {
                assert(rest[k - start] == v@[k as int]);
            }
            lemma_first_of(rest, c, k - start);
        }
        let field = chars_range(v, start, k);
        let ghost before = fields_view(fields@);
        fields.push(field);
        proof {
            assert(fields_view(fields@) =~= before.push(field@));
            assert(rest.subrange(0, k - start) =~= field@);
        }
        if k >= v.len() {
            proof {
                assert(rest =~= field@);
                assert(split_on(rest, c) == seq![rest]);
                assert(before + seq![rest] =~= before.push(field@));
            }
            return fields;
        }
        proof {
            let tail = rest.subrange(k - start + 1, rest.len() as int);
            assert(tail =~= v@.subrange(k + 1, v@.len() as int));
            assert(split_on(rest, c) == seq![field@] + split_on(tail, c));
            assert(before + (seq![field@] + split_on(tail, c)) =~= before.push(field@) + split_on(tail, c));
        }
        start = k + 1;
    }
}

} // verus!
