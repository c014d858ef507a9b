//! Text: numbers in decimal and hexadecimal, white space, substring search.

use vstd::prelude::*;
use vstd::string::*;

verus! {

/// The character of a digit below sixteen.
pub open spec fn digit_char(d: nat) -> char {
    if d < 10 {
        (48 + d) as char
    } else {
        (87 + d) as char
    }
}

/// `n` in decimal.
pub open spec fn decimal(n: nat) -> Seq<char>
    decreases n,
{
    if n < 10 {
        seq![digit_char(n)]
    } else {
        decimal(n / 10).push(digit_char(n % 10))
    }
}

/// The lowest `width` hexadecimal digits of `n`, the most significant first.
pub open spec fn hex(n: nat, width: nat) -> Seq<char>
    decreases width,
{
    if width == 0 {
        seq![]
    } else {
        hex(n / 16, (width - 1) as nat).push(digit_char(n % 16))
    }
}

/// Debug rendering of an optional number.
pub open spec fn option_text(n: Option<u64>) -> Seq<char> {
    match n {
        Some(n) => "Some("@ + decimal(n as nat) + ")"@,
        None => "None"@,
    }
}

/// The views of a list of texts.
pub open spec fn text_views(list: Seq<String>) -> Seq<Seq<char>> {
    Seq::new(list.len(), |i: int| list[i]@)
}

/// A digit as a one-character string.
fn digit(d: u8) -> (s: &'static str)
    requires
        d < 16,
    ensures
        s@ == seq![digit_char(d as nat)],
{
    proof {
        reveal_strlit("0");
        reveal_strlit("1");
        reveal_strlit("2");
        reveal_strlit("3");
        reveal_strlit("4");
        reveal_strlit("5");
        reveal_strlit("6");
        reveal_strlit("7");
        reveal_strlit("8");
        reveal_strlit("9");
        reveal_strlit("a");
        reveal_strlit("b");
        reveal_strlit("c");
        reveal_strlit("d");
        reveal_strlit("e");
        reveal_strlit("f");
    }
    match d {
        0 => "0",
        1 => "1",
        2 => "2",
        3 => "3",
        4 => "4",
        5 => "5",
        6 => "6",
        7 => "7",
        8 => "8",
        9 => "9",
        10 => "a",
        11 => "b",
        12 => "c",
        13 => "d",
        14 => "e",
        _ => "f",
    }
}

/// Append `n` in decimal.
pub fn push_decimal(s: &mut String, n: u64)
    ensures
        final(s)@ == old(s)@ + decimal(n as nat),
    decreases n,
{
    if n >= 10 {
        push_decimal(s, n / 10);
    }
    s.append(digit((n % 10) as u8));
    assert(s@ =~= old(s)@ + decimal(n as nat));
}

/// Append the lowest `width` hexadecimal digits of `n`.
pub fn push_hex(s: &mut String, n: u128, width: usize)
    ensures
        final(s)@ == old(s)@ + hex(n as nat, width as nat),
    decreases width,
{
    if width > 0 {
        push_hex(s, n / 16, width - 1);
        s.append(digit((n % 16) as u8));
    }
    assert(s@ =~= old(s)@ + hex(n as nat, width as nat));
}

/// Render `n` in decimal.
pub fn decimal_string(n: u64) -> (s: String)
    ensures
        s@ == decimal(n as nat),
{
    let mut s = String::new();
    push_decimal(&mut s, n);
    assert(s@ =~= decimal(n as nat));
    s
}

/// Append the debug rendering of an optional number.
pub fn push_option(s: &mut String, n: Option<u64>)
    ensures
        final(s)@ == old(s)@ + option_text(n),
{
    match n {
        Some(n) => {
            s.append("Some(");
            push_decimal(s, n);
            s.append(")");
        },
        None => {
            s.append("None");
        },
    }
    assert(s@ =~= old(s)@ + option_text(n));
}

/// Copy a string slice.
pub fn owned(s: &str) -> (r: String)
    ensures
        r@ == s@,
{
    String::from_str(s)
}

/// The characters of a string slice.
pub fn chars_of(s: &str) -> (v: Vec<char>)
    ensures
        v@ == s@,
{
    broadcast use axiom_spec_iter;

    let mut v: Vec<char> = Vec::new();
    for c in it: s.chars()
        invariant
            it.seq() == s@,
            v@ == it.seq().take(it.index()),
    {
        v.push(c);
        assert(v@ =~= it.seq().take(it.index() + 1));
    }
    assert(v@ =~= s@);
    v
}

/// A character with the Unicode property White_Space.
pub open spec fn is_space(c: char) -> bool {
    ||| '\u{9}' <= c <= '\u{d}'
    ||| c == '\u{20}' || c == '\u{85}' || c == '\u{a0}' || c == '\u{1680}'
    ||| '\u{2000}' <= c <= '\u{200a}'
    ||| c == '\u{2028}' || c == '\u{2029}' || c == '\u{202f}' || c == '\u{205f}' || c == '\u{3000}'
}

/// Text without leading white space.
pub open spec fn trim_start(s: Seq<char>) -> Seq<char>
    decreases s.len(),
{
    if s.len() > 0 && is_space(s[0]) {
        trim_start(s.skip(1))
    } else {
        s
    }
}

/// Text without trailing white space.
pub open spec fn trim_end(s: Seq<char>) -> Seq<char>
    decreases s.len(),
{
    if s.len() > 0 && is_space(s.last()) {
        trim_end(s.drop_last())
    } else {
        s
    }
}

/// Text without leading and trailing white space.
pub open spec fn trim(s: Seq<char>) -> Seq<char> {
    trim_end(trim_start(s))
}

fn space(c: char) -> (b: bool)
    ensures
        b == is_space(c),
{
    ('\u{9}' <= c && c <= '\u{d}') || c == '\u{20}' || c == '\u{85}' || c == '\u{a0}' || c
        == '\u{1680}' || ('\u{2000}' <= c && c <= '\u{200a}') || c == '\u{2028}' || c == '\u{2029}'
        || c == '\u{202f}' || c == '\u{205f}' || c == '\u{3000}'
}

/// The slice without leading and trailing white space.
pub fn trimmed(s: &str) -> (r: &str)
    ensures
        r@ == trim(s@),
{
    let chars = chars_of(s);
    let n: usize = chars.len();
    let mut from: usize = 0;
    assert(s@.skip(0) =~= s@);
    while from < n && space(chars[from])
        invariant
            from <= n,
            n == s@.len(),
            chars@ == s@,
            trim_start(s@) == trim_start(s@.skip(from as int)),
        decreases n - from,
    {
        assert(s@.skip(from as int).skip(1) =~= s@.skip(from + 1));
        from += 1;
    }
    assert(trim_start(s@) == s@.skip(from as int));
    let mut to: usize = n;
    assert(s@.subrange(from as int, n as int) =~= s@.skip(from as int));
    while to > from && space(chars[to - 1])
        invariant
            from <= to <= n,
            n == s@.len(),
            chars@ == s@,
            trim_end(s@.skip(from as int)) == trim_end(s@.subrange(from as int, to as int)),
        decreases to,
    {
        assert(s@.subrange(from as int, to as int).drop_last() =~= s@.subrange(
            from as int,
            to - 1,
        ));
        to -= 1;
    }
    s.substring_char(from, to)
}

/// A text occurs in another.
pub open spec fn occurs_in(part: Seq<char>, s: Seq<char>) -> bool {
    exists|i: int| 0 <= i <= s.len() - part.len() && #[trigger] s.subrange(i, i + part.len()) == part
}

/// Whether a text occurs in another.
pub fn contains_text(s: &str, part: &str) -> (b: bool)
    ensures
        b == occurs_in(part@, s@),
{
    let s_chars = chars_of(s);
    let part_chars = chars_of(part);
    let n: usize = s_chars.len();
    let m: usize = part_chars.len();
    if m > n {
        return false;
    }
    let mut i: usize = 0;
    while i <= n - m
        invariant
            m <= n,
            i <= n - m + 1,
            n == s@.len(),
            m == part@.len(),
            s_chars@ == s@,
            part_chars@ == part@,
            forall|k: int| 0 <= k < i ==> #[trigger] s@.subrange(k, k + m) != part@,
        decreases n - m + 1 - i,
    {
        let mut j: usize = 0;
        while j < m && s_chars[i + j] == part_chars[j]
            invariant
                m <= n,
                i <= n - m,
                j <= m,
                n == s@.len(),
                m == part@.len(),
                s_chars@ == s@,
                part_chars@ == part@,
                forall|k: int| 0 <= k < j ==> s@[i + k] == part@[k],
            decreases m - j,
        {
            j += 1;
        }
        let ghost here = s@.subrange(i as int, i + m);
        if j == m {
            assert(here =~= part@);
            return true;
        }
        assert(here[j as int] == s@[i + j]);
        if i == n - m {
            return false;
        }
        i += 1;
    }
    false
}

/// A value that can be taken as an owned text.
pub trait IntoText: Sized {
    /// The characters of the text.
    spec fn text(self) -> Seq<char>;

    /// Turn the value into an owned text.
    fn into_text(self) -> (s: String)
        ensures
            s@ == self.text(),
    ;
}

impl<'a> IntoText for &'a str {
    open spec fn text(self) -> Seq<char> {
        self@
    }

    fn into_text(self) -> (s: String) {
        owned(self)
    }
}

impl IntoText for String {
    open spec fn text(self) -> Seq<char> {
        self@
    }

    fn into_text(self) -> (s: String) {
        self
    }
}

/// The number that decimal digits stand for.
pub open spec fn decimal_number(s: Seq<char>) -> nat
    decreases s.len(),
{
    if s.len() == 0 {
        0
    } else {
        (decimal_number(s.drop_last()) * 10 + (s.last() as nat - 48)) as nat
    }
}

/// A number in decimal is made of digits, without a leading zero unless it is zero, and
/// reads as the number.
pub proof fn decimals_read_as_their_number(n: nat)
    ensures
        decimal(n).len() > 0,
        forall|i: int| 0 <= i < decimal(n).len() ==> '0' <= #[trigger] decimal(n)[i] <= '9',
        n > 0 ==> decimal(n)[0] != '0',
        n == 0 ==> decimal(n) == seq!['0'],
        decimal_number(decimal(n)) == n,
    decreases n,
{
    let s = decimal(n);
    if n < 10 {
        assert(s.drop_last() =~= Seq::empty());
        assert(decimal_number(s.drop_last()) == 0);
        assert(s.last() as nat == 48 + n);
    } else {
        decimals_read_as_their_number(n / 10);
        assert(s.drop_last() =~= decimal(n / 10));
        assert(s.last() as nat == 48 + n % 10);
        assert(s[0] == decimal(n / 10)[0]);
        assert forall|i: int| 0 <= i < s.len() implies '0' <= #[trigger] s[i] <= '9' by {
            if i < s.len() - 1 {
                assert(s[i] == decimal(n / 10)[i]);
            }
        }
    }
}

/// The value of a lower-case hexadecimal digit.
pub open spec fn lower_hex_value(c: char) -> nat {
    if '0' <= c <= '9' {
        (c as nat - 48) as nat
    } else {
        (c as nat - 87) as nat
    }
}

/// The number that lower-case hexadecimal digits stand for.
pub open spec fn hex_number(s: Seq<char>) -> nat
    decreases s.len(),
{
    if s.len() == 0 {
        0
    } else {
        hex_number(s.drop_last()) * 16 + lower_hex_value(s.last())
    }
}

/// As many digits as asked for, all of them lower-case hexadecimal, and where they suffice
/// for the number they read as the number.
pub proof fn hex_reads_as_its_number(n: nat, width: nat)
    ensures
        hex(n, width).len() == width,
        forall|i: int|
            0 <= i < width ==> ('0' <= #[trigger] hex(n, width)[i] <= '9' || 'a' <= hex(
                n,
                width,
            )[i] <= 'f'),
        n < vstd::arithmetic::power::pow(16, width) ==> hex_number(hex(n, width)) == n,
    decreases width,
{
    vstd::arithmetic::power::lemma_pow0(16);
    if width > 0 {
        let less = (width - 1) as nat;
        hex_reads_as_its_number(n / 16, less);
        let s = hex(n, width);
        assert(s.drop_last() =~= hex(n / 16, less));
        assert forall|i: int| 0 <= i < width implies ('0' <= #[trigger] s[i] <= '9' || 'a' <= s[i]
            <= 'f') by {
            if i < less {
                assert(s[i] == hex(n / 16, less)[i]);
            }
        }
        vstd::arithmetic::power::lemma_pow1(16);
        vstd::arithmetic::power::lemma_pow_adds(16, 1, less);
        let p = vstd::arithmetic::power::pow(16, less);
        assert(vstd::arithmetic::power::pow(16, width) == 16 * p);
        assert(lower_hex_value(s.last()) == n % 16);
    }
}

proof fn start_is_cut(s: Seq<char>) -> (k: int)
    ensures
        0 <= k <= s.len(),
        trim_start(s) == s.skip(k),
        forall|i: int| 0 <= i < k ==> is_space(#[trigger] s[i]),
        k < s.len() ==> !is_space(s[k]),
    decreases s.len(),
{
    if s.len() > 0 && is_space(s[0]) {
        let rest = s.skip(1);
        let k = start_is_cut(rest);
        assert(rest.skip(k) =~= s.skip(k + 1));
        assert forall|i: int| 0 <= i < k + 1 implies is_space(#[trigger] s[i]) by {
            if i > 0 {
                assert(s[i] == rest[i - 1]);
            }
        }
        k + 1
    } else {
        assert(s.skip(0) =~= s);
        0
    }
}

proof fn end_is_cut(s: Seq<char>) -> (k: int)
    ensures
        0 <= k <= s.len(),
        trim_end(s) == s.take(k),
        forall|i: int| k <= i < s.len() ==> is_space(#[trigger] s[i]),
        k > 0 ==> !is_space(s[k - 1]),
    decreases s.len(),
{
    if s.len() > 0 && is_space(s.last()) {
        let front = s.drop_last();
        let k = end_is_cut(front);
        assert(front.take(k) =~= s.take(k));
        assert forall|i: int| k <= i < s.len() implies is_space(#[trigger] s[i]) by {
            if i < front.len() {
                assert(s[i] == front[i]);
            }
        }
        k
    } else {
        assert(s.take(s.len() as int) =~= s);
        s.len() as int
    }
}

/// Trimming takes away white space at either end and nothing else: what is left lies in
/// the text between stretches of white space, and neither begins nor ends with any.
pub proof fn trimming_takes_white_space_only(s: Seq<char>) -> (ends: (int, int))
    ensures
        0 <= ends.0 <= ends.1 <= s.len(),
        trim(s) == s.subrange(ends.0, ends.1),
        forall|i: int| 0 <= i < ends.0 ==> is_space(#[trigger] s[i]),
        forall|i: int| ends.1 <= i < s.len() ==> is_space(#[trigger] s[i]),
        trim(s).len() > 0 ==> !is_space(trim(s)[0]) && !is_space(trim(s).last()),
        is_space(' '),
        is_space('\n'),
        is_space('\r'),
        is_space('\t'),
        forall|c: char| '!' <= c <= '~' ==> !(#[trigger] is_space(c)),
{
    let from = start_is_cut(s);
    let rest = s.skip(from);
    let k = end_is_cut(rest);
    let to = from + k;
    assert(rest.take(k) =~= s.subrange(from, to));
    assert forall|i: int| to <= i < s.len() implies is_space(#[trigger] s[i]) by {
        assert(s[i] == rest[i - from]);
    }
    if k > 0 {
        assert(trim(s)[0] == s[from]);
        assert(trim(s).last() == rest[k - 1]);
    }
    (from, to)
}

/// A text ends with what was appended to it last, and holds what lies in its middle.
pub proof fn parts_are_found(before: Seq<char>, part: Seq<char>, after: Seq<char>)
    ensures
        before.is_prefix_of(before + part),
        part.is_suffix_of(before + part),
        occurs_in(part, before + part + after),
{
    let whole = before + part;
    let n = before.len() as int;
    assert(whole.subrange(0, n) =~= before);
    assert(whole.subrange(n, whole.len() as int) =~= part);
    assert((before + part + after).subrange(n, n + part.len()) =~= part);
}

} // verus!
