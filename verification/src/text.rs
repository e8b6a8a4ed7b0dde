//! Character classes and small text utilities shared by the reader, the
//! printer and the test-file generator.

use vstd::prelude::*;

verus! {

/// Unicode `White_Space`: the characters that `str::trim_start` and
/// `str::trim` strip.
pub open spec fn is_whitespace(c: char) -> bool {
    let u = c as u32;
    ||| 0x09 <= u <= 0x0d
    ||| u == 0x20
    ||| u == 0x85
    ||| u == 0xa0
    ||| u == 0x1680
    ||| 0x2000 <= u <= 0x200a
    ||| u == 0x2028
    ||| u == 0x2029
    ||| u == 0x202f
    ||| u == 0x205f
    ||| u == 0x3000
}

/// ASCII decimal digit `0`..`9`.
pub open spec fn is_digit(c: char) -> bool {
    '0' <= c <= '9'
}

/// ASCII letter `a`..`z` or `A`..`Z`.
pub open spec fn is_alphabetic(c: char) -> bool {
    ('a' <= c <= 'z') || ('A' <= c <= 'Z')
}

pub fn char_is_whitespace(c: char) -> (b: bool)
    ensures
        b == is_whitespace(c),
{
    let u = c as u32;
    (0x09 <= u && u <= 0x0d) || u == 0x20 || u == 0x85 || u == 0xa0 || u == 0x1680 || (0x2000
        <= u && u <= 0x200a) || u == 0x2028 || u == 0x2029 || u == 0x202f || u == 0x205f || u
        == 0x3000
}

pub fn char_is_digit(c: char) -> (b: bool)
    ensures
        b == is_digit(c),
{
    '0' <= c && c <= '9'
}

pub fn char_is_alphabetic(c: char) -> (b: bool)
    ensures
        b == is_alphabetic(c),
{
    ('a' <= c && c <= 'z') || ('A' <= c && c <= 'Z')
}

/// The text with its leading white space removed (`str::trim_start`).
pub open spec fn trim_start(s: Seq<char>) -> Seq<char>
    decreases s.len(),
{
    if s.len() > 0 && is_whitespace(s[0]) {
        trim_start(s.drop_first())
    } else {
        s
    }
}

/// Whether the text holds nothing but white space (`s.trim().is_empty()`).
pub open spec fn is_blank(s: Seq<char>) -> bool {
    forall|i: int| 0 <= i < s.len() ==> is_whitespace(#[trigger] s[i])
}

/// `trim_start` removes a prefix: what is left is a suffix of the text and
/// starts with a character that is not white space.
pub proof fn lemma_trim_start(s: Seq<char>)
    ensures
        trim_start(s).len() <= s.len(),
        trim_start(s) == s.skip(s.len() - trim_start(s).len()),
        trim_start(s).len() > 0 ==> !is_whitespace(trim_start(s)[0]),
        trim_start(s).len() == 0 <==> is_blank(s),
    decreases s.len(),
{
    if s.len() > 0 && is_whitespace(s[0]) {
        lemma_trim_start(s.drop_first());
        let t = trim_start(s.drop_first());
        assert(s.drop_first().skip(s.drop_first().len() - t.len()) =~= s.skip(s.len() - t.len()));
        if is_blank(s.drop_first()) {
            assert forall|i: int| 0 <= i < s.len() implies is_whitespace(#[trigger] s[i]) by {
                if i > 0 {
                    assert(s[i] == s.drop_first()[i - 1]);
                }
            }
        }
        if is_blank(s) {
            assert forall|i: int| 0 <= i < s.drop_first().len() implies is_whitespace(
                #[trigger] s.drop_first()[i],
            ) by {
                assert(s.drop_first()[i] == s[i + 1]);
            }
        }
    } else {
        assert(s.skip(0) =~= s);
        if s.len() > 0 {
            assert(!is_blank(s)) by {
                assert(!is_whitespace(s[0]));
            }
        }
    }
}

/// Trimming twice is trimming once.
pub proof fn lemma_trim_start_idempotent(s: Seq<char>)
    ensures
        trim_start(trim_start(s)) == trim_start(s),
    decreases s.len(),
{
    if s.len() > 0 && is_whitespace(s[0]) {
        lemma_trim_start_idempotent(s.drop_first());
    }
}

/// The position of the first character at or after `pos` that is not white
/// space.
pub fn skip_whitespace(cs: &Vec<char>, pos: usize) -> (r: usize)
    requires
        pos <= cs.len(),
    ensures
        pos <= r <= cs.len(),
        cs@.skip(r as int) == trim_start(cs@.skip(pos as int)),
{
    let mut i = pos;
    while i < cs.len() && char_is_whitespace(cs[i])
        invariant
            pos <= i <= cs.len(),
            trim_start(cs@.skip(i as int)) == trim_start(cs@.skip(pos as int)),
        decreases cs.len() - i,
    {
        assert(cs@.skip(i as int).drop_first() =~= cs@.skip(i + 1));
        i = i + 1;
    }
    i
}

/// The characters of a string slice, in order.
pub fn chars_of(s: &str) -> (v: Vec<char>)
    ensures
        v@ == s@,
{
    let mut v: Vec<char> = Vec::new();
    for c in it: s.chars()
        invariant
            it.seq() == s@,
            v@ == it.seq().take(it.index() as int),
    {
        v.push(c);
    }
    v
}

/// The character of a decimal digit `d < 10`.
pub open spec fn digit_char(d: nat) -> char {
    if d == 0 { '0' }
    else if d == 1 { '1' }
    else if d == 2 { '2' }
    else if d == 3 { '3' }
    else if d == 4 { '4' }
    else if d == 5 { '5' }
    else if d == 6 { '6' }
    else if d == 7 { '7' }
    else if d == 8 { '8' }
    else { '9' }
}

/// Decimal digits of a natural number, most significant first, with no
/// leading zero (zero is `0`).
pub open spec fn nat_decimal(n: nat) -> Seq<char>
    decreases n,
{
    if n < 10 {
        seq![digit_char(n)]
    } else {
        nat_decimal(n / 10).push(digit_char(n % 10))
    }
}

/// How `Display` writes an integer: a `-` before the digits of a negative
/// number.
pub open spec fn int_decimal(n: int) -> Seq<char> {
    if n < 0 {
        seq!['-'] + nat_decimal((-n) as nat)
    } else {
        nat_decimal(n as nat)
    }
}

fn digit_str(d: u32) -> (s: &'static str)
    requires
        d < 10,
    ensures
        s@ == seq![digit_char(d as nat)],
{
    proof {
        reveal_strlit("0");
        reveal_strlit("1");
        reveal_strlit("2");
        reveal_strlit("3");
        reveal_strlit("4");
        reveal_strlit("5");
        reveal_strlit("6");
        reveal_strlit("7");
        reveal_strlit("8");
        reveal_strlit("9");
    }
    if d == 0 { "0" }
    else if d == 1 { "1" }
    else if d == 2 { "2" }
    else if d == 3 { "3" }
    else if d == 4 { "4" }
    else if d == 5 { "5" }
    else if d == 6 { "6" }
    else if d == 7 { "7" }
    else if d == 8 { "8" }
    else { "9" }
}

fn push_nat_decimal(out: &mut String, n: u32)
    ensures
        final(out)@ == old(out)@ + nat_decimal(n as nat),
    decreases n,
{
    if n >= 10 {
        push_nat_decimal(out, n / 10);
    }
    out.append(digit_str(n % 10));
    assert(final(out)@ =~= old(out)@ + nat_decimal(n as nat));
}

/// Appends the decimal form of `n` to `out`, as `write!(out, "{n}")` would.
pub fn push_decimal(out: &mut String, n: i32)
    ensures
        final(out)@ == old(out)@ + int_decimal(n as int),
{
    proof {
        reveal_strlit("-");
    }
    if n < 0 {
        out.append("-");
        let m: u32 = if n == i32::MIN { 2147483648u32 } else { (-n) as u32 };
        push_nat_decimal(out, m);
        assert(final(out)@ =~= old(out)@ + int_decimal(n as int));
    } else {
        push_nat_decimal(out, n as u32);
    }
}

/// Whether two string slices hold the same characters.
pub fn str_is(s: &str, other: &str) -> (b: bool)
    ensures
        b == (s@ == other@),
{
    let a = chars_of(s);
    let c = chars_of(other);
    if a.len() != c.len() {
        return false;
    }
    let mut i: usize = 0;
    while i < a.len()
        invariant
            a@ == s@,
            c@ == other@,
            a.len() == c.len(),
            i <= a.len(),
            forall|j: int| 0 <= j < i ==> a@[j] == c@[j],
        decreases a.len() - i,
    {
        if a[i] != c[i] {
            return false;
        }
        i = i + 1;
    }
    assert(a@ =~= c@);
    true
}

/// Whether the text holds nothing but white space (`s.trim().is_empty()`).
pub fn is_blank_str(s: &str) -> (b: bool)
    ensures
        b == is_blank(s@),
{
    let cs = chars_of(s);
    let mut i: usize = 0;
    while i < cs.len()
        invariant
            cs@ == s@,
            i <= cs.len(),
            forall|j: int| 0 <= j < i ==> is_whitespace(#[trigger] cs@[j]),
        decreases cs.len() - i,
    {
        if !char_is_whitespace(cs[i]) {
            return false;
        }
        i = i + 1;
    }
    true
}

/// Whether the text starts with `p`.
pub open spec fn starts_with(s: Seq<char>, p: Seq<char>) -> bool {
    p.len() <= s.len() && s.take(p.len() as int) == p
}

/// Whether `p` stands in the text from `pos` on.
pub fn starts_with_at(cs: &Vec<char>, pos: usize, p: &[char]) -> (b: bool)
    requires
        pos <= cs.len(),
    ensures
        b == starts_with(cs@.skip(pos as int), p@),
{
    let ghost s = cs@.skip(pos as int);
    if p.len() > cs.len() - pos {
        return false;
    }
    let mut k: usize = 0;
    while k < p.len()
        invariant
            k <= p.len() <= cs.len() - pos,
            s == cs@.skip(pos as int),
            forall|j: int| 0 <= j < k ==> s[j] == p@[j],
        decreases p.len() - k,
    {
        if cs[pos + k] != p[k] {
            assert(s.take(p@.len() as int)[k as int] != p@[k as int]);
            return false;
        }
        k = k + 1;
    }
    assert(s.take(p@.len() as int) =~= p@);
    true
}

} // verus!
