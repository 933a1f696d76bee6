//! Text tools: decimal numerals, white space and trimming, searching and
//! splitting, and reading numbers.

use vstd::prelude::*;
use vstd::string::*;

verus! {

/// The character of a decimal digit.
pub open spec fn digit_char(d: nat) -> char {
    if d == 0 {
        '0'
    } else if d == 1 {
        '1'
    } else if d == 2 {
        '2'
    } else if d == 3 {
        '3'
    } else if d == 4 {
        '4'
    } else if d == 5 {
        '5'
    } else if d == 6 {
        '6'
    } else if d == 7 {
        '7'
    } else if d == 8 {
        '8'
    } else {
        '9'
    }
}

/// The decimal numeral of `n`, without sign or leading zeros.
pub open spec fn decimal(n: nat) -> Seq<char>
    decreases n,
{
    if n < 10 {
        seq![digit_char(n)]
    } else {
        decimal(n / 10).push(digit_char(n % 10))
    }
}

/// The one-character text of a decimal digit.
fn digit_str(d: u8) -> (s: &'static str)
    requires
        d < 10,
    ensures
        s@ == seq![digit_char(d as nat)],
{
    proof {
        reveal_strlit("0");
        reveal_strlit("1");
        reveal_strlit("2");
        reveal_strlit("3");
        reveal_strlit("4");
        reveal_strlit("5");
        reveal_strlit("6");
        reveal_strlit("7");
        reveal_strlit("8");
        reveal_strlit("9");
    }
    let s = if d == 0 {
        "0"
    } else if d == 1 {
        "1"
    } else if d == 2 {
        "2"
    } else if d == 3 {
        "3"
    } else if d == 4 {
        "4"
    } else if d == 5 {
        "5"
    } else if d == 6 {
        "6"
    } else if d == 7 {
        "7"
    } else if d == 8 {
        "8"
    } else {
        "9"
    };
    assert(s@ =~= seq![digit_char(d as nat)]);
    s
}

/// Appends the decimal numeral of `n`.
pub fn push_decimal(out: &mut String, n: u64)
    ensures
        final(out)@ == old(out)@ + decimal(n as nat),
    decreases n,
{
    if n >= 10 {
        push_decimal(out, n / 10);
    }
    out.append(digit_str((n % 10) as u8));
    assert(out@ =~= old(out)@ + decimal(n as nat));
}

/// The characters of a text, one by one.
pub fn chars_of(text: &str) -> (v: Vec<char>)
    ensures
        v@ == text@,
{
    let mut v: Vec<char> = Vec::new();
    for c in it: text.chars()
        invariant
            it.seq() == text@,
            v@ == text@.take(it.index()),
    {
        assert(text@.take(it.index() + 1) =~= text@.take(it.index()).push(c));
        v.push(c);
    }
    assert(text@.take(text@.len() as int) =~= text@);
    v
}

/// Whether a character is white space, as Unicode defines it: the characters
/// with the `White_Space` property.
pub open spec fn is_whitespace(c: char) -> bool {
    let u = c as u32;
    (0x09 <= u <= 0x0D) || u == 0x20 || u == 0x85 || u == 0xA0 || u == 0x1680 || (0x2000 <= u
        <= 0x200A) || u == 0x2028 || u == 0x2029 || u == 0x202F || u == 0x205F || u == 0x3000
}

/// Whether a character is one of the digits `0` to `9`.
pub open spec fn is_ascii_digit(c: char) -> bool {
    0x30 <= c as u32 <= 0x39
}

/// Whether `c` is white space.
pub fn char_is_whitespace(c: char) -> (b: bool)
    ensures
        b == is_whitespace(c),
{
    let u: u32 = c as u32;
    (0x09 <= u && u <= 0x0D) || u == 0x20 || u == 0x85 || u == 0xA0 || u == 0x1680 || (0x2000 <= u
        && u <= 0x200A) || u == 0x2028 || u == 0x2029 || u == 0x202F || u == 0x205F || u == 0x3000
}

/// Whether `c` is a digit from `0` to `9`.
pub fn char_is_ascii_digit(c: char) -> (b: bool)
    ensures
        b == is_ascii_digit(c),
{
    let u: u32 = c as u32;
    0x30 <= u && u <= 0x39
}

/// Number of white-space characters at the start of `s`.
pub open spec fn leading_space(s: Seq<char>) -> nat
    decreases s.len(),
{
    if s.len() > 0 && is_whitespace(s[0]) {
        1 + leading_space(s.drop_first())
    } else {
        0
    }
}

/// Number of white-space characters at the end of `s`.
pub open spec fn trailing_space(s: Seq<char>) -> nat
    decreases s.len(),
{
    if s.len() > 0 && is_whitespace(s.last()) {
        1 + trailing_space(s.drop_last())
    } else {
        0
    }
}

/// `s` without the white space at its start and at its end.
pub open spec fn trim(s: Seq<char>) -> Seq<char> {
    if leading_space(s) == s.len() {
        Seq::empty()
    } else {
        s.subrange(leading_space(s) as int, s.len() - trailing_space(s))
    }
}

/// The leading white space is a run of white-space characters, and the
/// character after it, if there is one, is not white space.
pub proof fn lemma_leading_space(s: Seq<char>)
    ensures
        leading_space(s) <= s.len(),
        forall|i: int| 0 <= i < leading_space(s) ==> is_whitespace(s[i]),
        leading_space(s) < s.len() ==> !is_whitespace(s[leading_space(s) as int]),
    decreases s.len(),
{
    if s.len() > 0 && is_whitespace(s[0]) {
        let rest = s.drop_first();
        lemma_leading_space(rest);
        assert forall|i: int| 0 <= i < leading_space(s) implies is_whitespace(s[i]) by {
            if i > 0 {
                assert(s[i] == rest[i - 1]);
            }
        }
        if leading_space(s) < s.len() {
            assert(s[leading_space(s) as int] == rest[leading_space(rest) as int]);
        }
    }
}

/// The trailing white space is a run of white-space characters, and the
/// character before it, if there is one, is not white space.
pub proof fn lemma_trailing_space(s: Seq<char>)
    ensures
        trailing_space(s) <= s.len(),
        forall|i: int| s.len() - trailing_space(s) <= i < s.len() ==> is_whitespace(s[i]),
        trailing_space(s) < s.len() ==> !is_whitespace(s[s.len() - trailing_space(s) - 1]),
    decreases s.len(),
{
    if s.len() > 0 && is_whitespace(s.last()) {
        let rest = s.drop_last();
        lemma_trailing_space(rest);
        assert forall|i: int| s.len() - trailing_space(s) <= i < s.len() implies is_whitespace(
            s[i],
        ) by {
            if i < s.len() - 1 {
                assert(s[i] == rest[i]);
            }
        }
        if trailing_space(s) < s.len() {
            assert(s[s.len() - trailing_space(s) - 1] == rest[rest.len() - trailing_space(rest)
                - 1]);
        }
    }
}

/// What trimming leaves is empty, or begins and ends with a character that
/// is not white space.
pub proof fn lemma_trim(s: Seq<char>)
    ensures
        trim(s).len() <= s.len(),
        trim(s).len() > 0 ==> !is_whitespace(trim(s)[0]) && !is_whitespace(trim(s).last()),
        trim(s).len() == 0 <==> forall|i: int| 0 <= i < s.len() ==> is_whitespace(s[i]),
{
    lemma_leading_space(s);
    lemma_trailing_space(s);
    if leading_space(s) < s.len() {
        assert(!is_whitespace(s[leading_space(s) as int]));
        assert(leading_space(s) < s.len() - trailing_space(s));
    }
}

/// A run of `n` white-space characters at the start of `s`, followed by the
/// end of `s` or by a character that is not white space, is the leading
/// white space of `s`.
pub proof fn lemma_leading_space_is(s: Seq<char>, n: int)
    requires
        0 <= n <= s.len(),
        forall|i: int| 0 <= i < n ==> is_whitespace(s[i]),
        n < s.len() ==> !is_whitespace(s[n]),
    ensures
        leading_space(s) == n,
    decreases s.len(),
{
    if n > 0 {
        let rest = s.drop_first();
        assert forall|i: int| 0 <= i < n - 1 implies is_whitespace(rest[i]) by {
            assert(rest[i] == s[i + 1]);
        }
        lemma_leading_space_is(rest, n - 1);
    }
}

/// A run of `n` white-space characters at the end of `s`, preceded by the
/// start of `s` or by a character that is not white space, is the trailing
/// white space of `s`.
pub proof fn lemma_trailing_space_is(s: Seq<char>, n: int)
    requires
        0 <= n <= s.len(),
        forall|i: int| s.len() - n <= i < s.len() ==> is_whitespace(s[i]),
        n < s.len() ==> !is_whitespace(s[s.len() - n - 1]),
    ensures
        trailing_space(s) == n,
    decreases s.len(),
{
    if n > 0 {
        let rest = s.drop_last();
        assert forall|i: int| rest.len() - (n - 1) <= i < rest.len() implies is_whitespace(
            rest[i],
        ) by {
            assert(rest[i] == s[i]);
        }
        lemma_trailing_space_is(rest, n - 1);
    }
}

/// Trims the part `from..to` of `chars`: answers the bounds of what is left
/// when the white space at both ends of that part is taken off.
pub fn trim_range(chars: &[char], from: usize, to: usize) -> (r: (usize, usize))
    requires
        from <= to <= chars@.len(),
    ensures
        from <= r.0 <= r.1 <= to,
        chars@.subrange(r.0 as int, r.1 as int) == trim(chars@.subrange(from as int, to as int)),
{
    let ghost part = chars@.subrange(from as int, to as int);
    let mut a: usize = from;
    while a < to && char_is_whitespace(chars[a])
        invariant
            from <= a <= to <= chars@.len(),
            forall|i: int| from <= i < a ==> is_whitespace(chars@[i]),
        decreases to - a,
    {
        a = a + 1;
    }
    proof {
        assert forall|i: int| 0 <= i < a - from implies is_whitespace(part[i]) by {
            assert(part[i] == chars@[from + i]);
        }
        lemma_leading_space_is(part, a - from);
    }
    if a == to {
        assert(chars@.subrange(a as int, a as int) =~= Seq::<char>::empty());
        return (a, a);
    }
    let mut b: usize = to;
    while b > a && char_is_whitespace(chars[b - 1])
        invariant
            from <= a < b <= to <= chars@.len(),
            !is_whitespace(chars@[a as int]),
            forall|i: int| b <= i < to ==> is_whitespace(chars@[i]),
        decreases b,
    {
        b = b - 1;
    }
    proof {
        assert forall|i: int| part.len() - (to - b) <= i < part.len() implies is_whitespace(
            part[i],
        ) by {
            assert(part[i] == chars@[from + i]);
        }
        assert(part[part.len() - (to - b) - 1] == chars@[b - 1]);
        lemma_trailing_space_is(part, to - b);
        assert(chars@.subrange(a as int, b as int) =~= part.subrange(
            a - from,
            part.len() - (to - b),
        ));
    }
    (a, b)
}

/// Whether `pat` stands in `s` at position `at`.
pub open spec fn occurs_at(s: Seq<char>, pat: Seq<char>, at: int) -> bool {
    0 <= at && at + pat.len() <= s.len() && s.subrange(at, at + pat.len()) == pat
}

/// The first position from `from` on at which `pat` stands in `s`, or the
/// length of `s` if there is none.
pub open spec fn find_from(s: Seq<char>, pat: Seq<char>, from: int) -> int
    decreases s.len() - from,
{
    if from < 0 || from >= s.len() || from + pat.len() > s.len() {
        s.len() as int
    } else if occurs_at(s, pat, from) {
        from
    } else {
        find_from(s, pat, from + 1)
    }
}

/// `find_from` answers an occurrence, the first one from `from` on, or the
/// length of `s` when there is none.
pub proof fn lemma_find_from(s: Seq<char>, pat: Seq<char>, from: int)
    requires
        0 <= from <= s.len(),
        pat.len() > 0,
    ensures
        from <= find_from(s, pat, from) <= s.len(),
        find_from(s, pat, from) < s.len() ==> occurs_at(s, pat, find_from(s, pat, from)),
        forall|i: int| from <= i < find_from(s, pat, from) ==> !occurs_at(s, pat, i),
        find_from(s, pat, from) == s.len() ==> forall|i: int| from <= i ==> !occurs_at(s, pat, i),
    decreases s.len() - from,
{
    if from + pat.len() <= s.len() && !occurs_at(s, pat, from) {
        lemma_find_from(s, pat, from + 1);
    }
}

/// The pieces of `s` that lie between the occurrences of `pat`, from left to
/// right. Occurrences are taken first come, first served, and do not
/// overlap. There is always at least one piece; a text without an
/// occurrence is its own single piece.
pub open spec fn split(s: Seq<char>, pat: Seq<char>) -> Seq<Seq<char>>
    recommends
        pat.len() > 0,
    decreases s.len(),
{
    let at = find_from(s, pat, 0);
    if pat.len() == 0 || at < 0 || at + pat.len() > s.len() {
        seq![s]
    } else {
        seq![s.take(at)] + split(s.skip(at + pat.len()), pat)
    }
}

/// Whether the part of `chars` at `at` equals `pat`.
pub fn matches_at(chars: &[char], pat: &[char], at: usize) -> (b: bool)
    requires
        at <= chars@.len(),
    ensures
        b == occurs_at(chars@, pat@, at as int),
{
    let n = pat.len();
    let len = chars.len();
    if n > len - at {
        return false;
    }
    let mut i: usize = 0;
    while i < n
        invariant
            i <= n,
            n == pat@.len(),
            len == chars@.len(),
            at + n <= len,
            forall|j: int| 0 <= j < i ==> chars@[at + j] == pat@[j],
        decreases n - i,
    {
        if chars[at + i] != pat[i] {
            assert(chars@.subrange(at as int, at + n)[i as int] != pat@[i as int]);
            return false;
        }
        i = i + 1;
    }
    assert(chars@.subrange(at as int, at + n) =~= pat@);
    true
}

/// The first position from `from` on, and before `to`, at which `pat`
/// stands in `chars[..to]`, or `to` if there is none.
pub fn find_in(chars: &[char], pat: &[char], from: usize, to: usize) -> (at: usize)
    requires
        from <= to <= chars@.len(),
        pat@.len() > 0,
    ensures
        at as int == from + find_from(chars@.subrange(from as int, to as int), pat@, 0),
        from <= at <= to,
{
    let ghost part = chars@.subrange(from as int, to as int);
    let n = pat.len();
    let mut i: usize = from;
    while i < to
        invariant
            from <= i <= to <= chars@.len(),
            part == chars@.subrange(from as int, to as int),
            n == pat@.len(),
            n > 0,
            find_from(part, pat@, 0) == find_from(part, pat@, i - from),
        decreases to - i,
    {
        if n > to - i {
            proof {
                lemma_find_from(part, pat@, i - from);
                assert forall|k: int| i - from <= k implies !occurs_at(part, pat@, k) by {}
                lemma_find_none(part, pat@, i - from);
            }
            return to;
        }
        let hit = matches_at(chars, pat, i);
        proof {
            if i + n <= to {
                assert(part.subrange(i - from, i - from + n) =~= chars@.subrange(
                    i as int,
                    i + n,
                ));
            }
        }
        if hit {
            return i;
        }
        i = i + 1;
    }
    to
}

/// Where `pat` stands nowhere from `from` on, `find_from` answers the
/// length of `s`.
pub proof fn lemma_find_none(s: Seq<char>, pat: Seq<char>, from: int)
    requires
        0 <= from <= s.len(),
        pat.len() > 0,
        forall|i: int| from <= i ==> !occurs_at(s, pat, i),
    ensures
        find_from(s, pat, from) == s.len(),
    decreases s.len() - from,
{
    if from + pat.len() <= s.len() {
        lemma_find_none(s, pat, from + 1);
    }
}

/// The number that a run of decimal digits spells.
pub open spec fn digits_value(s: Seq<char>) -> nat
    decreases s.len(),
{
    if s.len() == 0 {
        0
    } else {
        10 * digits_value(s.drop_last()) + (s.last() as u32 - 0x30) as nat
    }
}

/// Whether every character of `s` is a decimal digit.
pub open spec fn all_digits(s: Seq<char>) -> bool {
    forall|i: int| 0 <= i < s.len() ==> is_ascii_digit(#[trigger] s[i])
}

/// The 32-bit number that a text spells, if it spells one: an optional `+`,
/// then one or more decimal digits and nothing else, with a value that fits
/// in 32 bits.
pub open spec fn spec_parse_u32(s: Seq<char>) -> Option<u32> {
    let digits = if s.len() > 0 && s[0] == '+' {
        s.drop_first()
    } else {
        s
    };
    if digits.len() > 0 && all_digits(digits) && digits_value(digits) <= u32::MAX {
        Some(digits_value(digits) as u32)
    } else {
        None
    }
}

/// More digits never spell a smaller number.
pub proof fn lemma_digits_value_grows(s: Seq<char>, n: int)
    requires
        0 <= n <= s.len(),
        all_digits(s),
    ensures
        digits_value(s.take(n)) <= digits_value(s),
    decreases s.len() - n,
{
    if n < s.len() {
        lemma_digits_value_grows(s, n + 1);
        assert(s.take(n + 1).drop_last() =~= s.take(n));
        assert(is_ascii_digit(s[n]));
        assert(s.take(n + 1).last() == s[n]);
    } else {
        assert(s.take(n) =~= s);
    }
}

/// Reads the 32-bit number that `chars` spells, if it spells one.
pub fn parse_u32(chars: &[char]) -> (r: Option<u32>)
    ensures
        r == spec_parse_u32(chars@),
{
    let len = chars.len();
    let start: usize = if len > 0 && chars[0] == '+' {
        1
    } else {
        0
    };
    let ghost digits = if chars@.len() > 0 && chars@[0] == '+' {
        chars@.drop_first()
    } else {
        chars@
    };
    assert(digits =~= chars@.subrange(start as int, len as int));
    if start == len {
        return None;
    }
    let mut value: u64 = 0;
    let mut i: usize = start;
    assert(digits.take(0) =~= Seq::<char>::empty());
    while i < len
        invariant
            start <= i <= len,
            len == chars@.len(),
            digits == chars@.subrange(start as int, len as int),
            digits == (if chars@.len() > 0 && chars@[0] == '+' {
                chars@.drop_first()
            } else {
                chars@
            }),
            all_digits(digits.take(i - start)),
            value == digits_value(digits.take(i - start)),
            value <= u32::MAX,
        decreases len - i,
    {
        let c = chars[i];
        assert(digits[i - start] == c);
        if !char_is_ascii_digit(c) {
            return None;
        }
        let ghost longer = digits.take(i - start + 1);
        proof {
            assert(longer.drop_last() =~= digits.take(i - start));
            assert(longer.last() == c);
            assert forall|j: int| 0 <= j < longer.len() implies is_ascii_digit(
                #[trigger] longer[j],
            ) by {
                if j < i - start {
                    assert(digits.take(i - start)[j] == longer[j]);
                }
            }
        }
        value = value * 10 + (c as u32 - 0x30) as u64;
        if value > u32::MAX as u64 {
            proof {
                if all_digits(digits) {
                    lemma_digits_value_grows(digits, i - start + 1);
                }
            }
            return None;
        }
        i = i + 1;
    }
    assert(digits.take(len - start) =~= digits);
    Some(value as u32)
}

/// Whether two runs of characters are the same text.
pub fn chars_eq(a: &[char], b: &[char]) -> (same: bool)
    ensures
        same == (a@ == b@),
{
    if a.len() != b.len() {
        return false;
    }
    let mut i: usize = 0;
    while i < a.len()
        invariant
            i <= a@.len(),
            a@.len() == b@.len(),
            forall|j: int| 0 <= j < i ==> a@[j] == b@[j],
        decreases a@.len() - i,
    {
        if a[i] != b[i] {
            return false;
        }
        i = i + 1;
    }
    assert(a@ =~= b@);
    true
}

/// Whether two texts are the same.
pub fn str_eq(a: &str, b: &str) -> (same: bool)
    ensures
        same == (a@ == b@),
{
    let x = chars_of(a);
    let y = chars_of(b);
    chars_eq(x.as_slice(), y.as_slice())
}

/// Texts by their characters.
pub open spec fn texts(pieces: Seq<String>) -> Seq<Seq<char>> {
    Seq::new(pieces.len(), |i: int| pieces[i]@)
}

/// Cuts `text` at every occurrence of `mark`: the pieces between the
/// occurrences, from left to right.
pub fn split_text(text: &str, mark: &str) -> (pieces: Vec<String>)
    requires
        mark@.len() > 0,
    ensures
        texts(pieces@) == split(text@, mark@),
{
    let chars = chars_of(text);
    let pattern = chars_of(mark);
    let len = chars.len();
    let width = pattern.len();
    let mut pieces: Vec<String> = Vec::new();
    let mut from: usize = 0;
    assert(text@.skip(0) =~= text@);
    assert(texts(pieces@) + split(text@, mark@) =~= split(text@, mark@));
    loop
        invariant_except_break
            texts(pieces@) + split(text@.skip(from as int), mark@) == split(text@, mark@),
        invariant
            chars@ == text@,
            pattern@ == mark@,
            len == chars@.len(),
            width == pattern@.len(),
            width > 0,
            from <= len,
        ensures
            texts(pieces@) == split(text@, mark@),
        decreases len - from,
    {
        let ghost rest = text@.skip(from as int);
        let ghost done = texts(pieces@);
        let at = find_in(chars.as_slice(), pattern.as_slice(), from, len);
        proof {
            assert(chars@.subrange(from as int, len as int) =~= rest);
            lemma_find_from(rest, mark@, 0);
        }
        let piece = text.substring_char(from, at);
        assert(piece@ =~= rest.take(at - from));
        pieces.push(String::from_str(piece));
        assert(texts(pieces@) =~= done + seq![piece@]);
        if at >= len {
            proof {
                assert(rest.take(rest.len() as int) =~= rest);
                assert(split(rest, mark@) =~= seq![rest]);
            }
            break ;
        }
        proof {
            let tail = split(rest.skip(at - from + width), mark@);
            assert(split(rest, mark@) =~= seq![rest.take(at - from)] + tail);
            assert(rest.skip(at - from + width) =~= text@.skip(at + width));
            assert(done + seq![piece@] + tail =~= done + (seq![piece@] + tail));
        }
        from = at + width;
    }
    pieces
}

} // verus!
