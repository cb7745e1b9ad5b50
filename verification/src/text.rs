//! Text: characters of a string, comparison, and decimal numbers.

pub mod laws;

use vstd::prelude::*;
use vstd::string::*;
use vstd::utf8::*;

verus! {

/// The characters of a string.
pub fn chars_of(s: &str) -> (v: Vec<char>)
    ensures
        v@ == s@,
{
    let n: usize = s.unicode_len();
    let mut v: Vec<char> = Vec::new();
    let mut i: usize = 0;
    while i < n
        invariant
            n == s@.len(),
            i <= n,
            v@ == s@.subrange(0, i as int),
        decreases n - i,
    {
        v.push(s.get_char(i));
        i += 1;
        assert(v@ =~= s@.subrange(0, i as int));
    }
    assert(s@.subrange(0, n as int) =~= s@);
    v
}

/// Whether two strings hold the same text.
pub fn same_text(a: &str, b: &str) -> (r: bool)
    ensures
        r == (a@ == b@),
{
    String::from_str(a) == String::from_str(b)
}

/// The value of a run of decimal digits.
pub open spec fn decimal_value(s: Seq<char>) -> nat
    decreases s.len(),
{
    if s.len() == 0 {
        0
    } else {
        decimal_value(s.drop_last()) * 10 + digit_value(s.last())
    }
}

/// A decimal digit.
pub open spec fn is_digit(c: char) -> bool {
    '0' <= c && c <= '9'
}

/// The value of a decimal digit.
pub open spec fn digit_value(c: char) -> nat {
    if is_digit(c) {
        (c as u32 - '0' as u32) as nat
    } else {
        0
    }
}

/// The digits of an unsigned number: an optional plus sign is not one of them.
pub open spec fn unsigned_digits(s: Seq<char>) -> Seq<char> {
    if s.len() > 0 && s[0] == '+' {
        s.subrange(1, s.len() as int)
    } else {
        s
    }
}

/// What an unsigned decimal number of at most `max` reads as: at least one
/// digit, nothing but digits behind an optional plus sign, and no overflow.
pub open spec fn parsed_unsigned(s: Seq<char>, max: nat) -> Option<nat> {
    let d = unsigned_digits(s);
    if d.len() == 0 || exists|i: int| 0 <= i < d.len() && !is_digit(#[trigger] d[i])
        || decimal_value(d) > max {
        None
    } else {
        Some(decimal_value(d))
    }
}

/// A longer run of digits has no smaller value.
proof fn lemma_decimal_monotonic(s: Seq<char>, n: int)
    requires
        0 <= n <= s.len(),
    ensures
        decimal_value(s.subrange(0, n)) <= decimal_value(s),
    decreases s.len() - n,
{
    if n == s.len() {
        assert(s.subrange(0, n) =~= s);
    } else {
        lemma_decimal_monotonic(s, n + 1);
        assert(s.subrange(0, n + 1).drop_last() =~= s.subrange(0, n));
    }
}

/// Read an unsigned decimal number of at most `max`.
pub fn parse_unsigned(s: &[char], max: u128) -> (r: Option<u128>)
    ensures
        match r {
            Some(x) => parsed_unsigned(s@, max as nat) == Some(x as nat),
            None => parsed_unsigned(s@, max as nat) is None,
        },
{
    let start: usize = if s.len() > 0 && s[0] == '+' {
        1
    } else {
        0
    };
    let ghost d = unsigned_digits(s@);
    assert(d =~= s@.subrange(start as int, s@.len() as int));
    if start == s.len() {
        return None;
    }
    let mut value: u128 = 0;
    let mut i: usize = start;
    while i < s.len()
        invariant
            start <= i <= s.len(),
            start <= 1,
            d == s@.subrange(start as int, s@.len() as int),
            d == unsigned_digits(s@),
            d.len() > 0,
            value == decimal_value(d.subrange(0, i - start)),
            value <= max,
            forall|k: int| 0 <= k < i - start ==> is_digit(#[trigger] d[k]),
        decreases s.len() - i,
    {
        let c: char = s[i];
        assert(d[i - start] == c);
        if c < '0' || c > '9' {
            assert(!is_digit(d[i - start]));
            return None;
        }
        let digit: u128 = (c as u32 - '0' as u32) as u128;
        let ghost upto = d.subrange(0, i + 1 - start);
        proof {
            assert(upto.drop_last() =~= d.subrange(0, i - start));
            assert(upto.last() == c);
            assert(decimal_value(upto) == value * 10 + digit);
            lemma_decimal_monotonic(d, i + 1 - start);
        }
        let scaled = value.checked_mul(10);
        if scaled.is_none() {
            return None;
        }
        let next = scaled.unwrap().checked_add(digit);
        if next.is_none() {
            return None;
        }
        value = next.unwrap();
        if value > max {
            return None;
        }
        i += 1;
    }
    assert(d.subrange(0, i - start) =~= d);
    Some(value)
}

/// The digits of a number, most significant first.
pub open spec fn decimal_text(x: nat) -> Seq<char>
    decreases x,
{
    if x < 10 {
        seq![digit_char(x)]
    } else {
        decimal_text(x / 10).push(digit_char(x % 10))
    }
}

/// The character of a digit.
pub open spec fn digit_char(d: nat) -> char {
    ('0' as u32 + d) as char
}

/// A number's text is digits only, is not empty, and reads as the number.
pub proof fn lemma_decimal_text(x: nat)
    ensures
        decimal_text(x).len() > 0,
        forall|i: int| 0 <= i < decimal_text(x).len() ==> is_digit(#[trigger] decimal_text(x)[i]),
        decimal_value(decimal_text(x)) == x,
    decreases x,
{
    if x < 10 {
        let s = decimal_text(x);
        assert(s.drop_last() =~= Seq::<char>::empty());
        assert(s.last() == digit_char(x));
        reveal_with_fuel(decimal_value, 2);
    } else {
        lemma_decimal_text(x / 10);
        let s = decimal_text(x);
        assert(s.drop_last() =~= decimal_text(x / 10));
    }
}

/// A number's text reads back as the number.
pub proof fn lemma_parse_decimal_text(x: nat, max: nat)
    requires
        x <= max,
    ensures
        parsed_unsigned(decimal_text(x), max) == Some(x),
{
    lemma_decimal_text(x);
    let s = decimal_text(x);
    assert(is_digit(s[0]));
    assert(unsigned_digits(s) == s);
}

/// The character of a digit, as a string.
fn digit_str(d: u128) -> (s: &'static str)
    requires
        d < 10,
    ensures
        s@ == seq![digit_char(d as nat)],
{
    proof {
        reveal_strlit("0");
        reveal_strlit("1");
        reveal_strlit("2");
        reveal_strlit("3");
        reveal_strlit("4");
        reveal_strlit("5");
        reveal_strlit("6");
        reveal_strlit("7");
        reveal_strlit("8");
        reveal_strlit("9");
    }
    let s: &'static str = if d == 0 {
        "0"
    } else if d == 1 {
        "1"
    } else if d == 2 {
        "2"
    } else if d == 3 {
        "3"
    } else if d == 4 {
        "4"
    } else if d == 5 {
        "5"
    } else if d == 6 {
        "6"
    } else if d == 7 {
        "7"
    } else if d == 8 {
        "8"
    } else {
        "9"
    };
    assert(s@ =~= seq![digit_char(d as nat)]);
    s
}

/// The decimal text of a number.
pub fn decimal(x: u128) -> (s: String)
    ensures
        s@ == decimal_text(x as nat),
    decreases x,
{
    if x < 10 {
        String::from_str(digit_str(x))
    } else {
        let s = decimal(x / 10).concat(digit_str(x % 10));
        assert(s@ =~= decimal_text(x as nat));
        s
    }
}

/// The lower-case form of a text.
pub uninterp spec fn lowercase(s: Seq<char>) -> Seq<char>;

/// The upper-case form of a text.
pub uninterp spec fn uppercase(s: Seq<char>) -> Seq<char>;

/// Every character is ASCII.
pub open spec fn all_ascii(s: Seq<char>) -> bool {
    forall|i: int| 0 <= i < s.len() ==> 128 > (#[trigger] s[i]) as u32
}

/// The lower-case form of an ASCII character.
pub open spec fn ascii_lower(c: char) -> char {
    if 'A' <= c && c <= 'Z' {
        (c as u32 + 32) as char
    } else {
        c
    }
}

/// The upper-case form of an ASCII character.
pub open spec fn ascii_upper(c: char) -> char {
    if 'a' <= c && c <= 'z' {
        (c as u32 - 32) as char
    } else {
        c
    }
}

/// Calls `str::to_lowercase`. The result is a function of the text, which
/// `lowercase` names; on ASCII text it changes the letters one by one.
#[verifier::external_body]
pub(crate) fn to_lower(s: &str) -> (r: String)
    ensures
        r@ == lowercase(s@),
        all_ascii(s@) ==> r@ == Seq::new(s@.len(), |i: int| ascii_lower(s@[i])),
{
    s.to_lowercase()
}

/// Calls `str::to_uppercase`. The result is a function of the text, which
/// `uppercase` names; on ASCII text it changes the letters one by one.
#[verifier::external_body]
pub(crate) fn to_upper(s: &str) -> (r: String)
    ensures
        r@ == uppercase(s@),
        all_ascii(s@) ==> r@ == Seq::new(s@.len(), |i: int| ascii_upper(s@[i])),
{
    s.to_uppercase()
}

/// Calls `char::to_string`, which gives the text of that one character.
#[verifier::external_body]
pub(crate) fn char_text(c: char) -> (r: String)
    ensures
        r@ == seq![c],
{
    c.to_string()
}

/// The text that bytes spell, if they are valid UTF-8.
pub open spec fn utf8_text(bytes: Seq<u8>) -> Option<Seq<char>> {
    if valid_utf8(bytes) {
        Some(decode_utf8(bytes))
    } else {
        None
    }
}

/// Calls `String::from_utf8`, which succeeds on valid UTF-8 and then gives the
/// text that the bytes encode.
#[verifier::external_body]
pub(crate) fn from_utf8(bytes: Vec<u8>) -> (r: Option<String>)
    ensures
        r is Some <==> valid_utf8(bytes@),
        r is Some ==> r->Some_0@ == decode_utf8(bytes@),
{
    String::from_utf8(bytes).ok()
}

/// `t` stands in `s` at `i`.
pub open spec fn stands_at(s: Seq<char>, t: Seq<char>, i: int) -> bool {
    0 <= i && i + t.len() <= s.len() && s.subrange(i, i + t.len()) == t
}

/// `t` stands somewhere in `s`.
pub open spec fn contains_text(s: Seq<char>, t: Seq<char>) -> bool {
    exists|i: int| stands_at(s, t, i)
}

/// Whether `t` stands somewhere in `s`.
pub fn has_text(s: &str, t: &str) -> (r: bool)
    ensures
        r == contains_text(s@, t@),
{
    let sc = chars_of(s);
    let tc = chars_of(t);
    if tc.len() > sc.len() {
        return false;
    }
    let mut i: usize = 0;
    while i <= sc.len() - tc.len()
        invariant
            sc@ == s@,
            tc@ == t@,
            tc@.len() <= sc@.len() <= usize::MAX,
            i <= sc@.len() - tc@.len() + 1,
            forall|k: int| 0 <= k < i ==> !stands_at(s@, t@, k),
        decreases sc@.len() - i,
    {
        let mut j: usize = 0;
        while j < tc.len() && sc[i + j] == tc[j]
            invariant
                sc@ == s@,
                tc@ == t@,
                j <= tc@.len(),
                i + tc@.len() <= sc@.len() <= usize::MAX,
                forall|k: int| 0 <= k < j ==> sc@[i + k] == tc@[k],
            decreases tc@.len() - j,
        {
            j += 1;
        }
        if j == tc.len() {
            assert(s@.subrange(i as int, i + t@.len()) =~= t@);
            assert(stands_at(s@, t@, i as int));
            return true;
        }
        assert(!stands_at(s@, t@, i as int)) by {
            if stands_at(s@, t@, i as int) {
                assert(s@.subrange(i as int, i + t@.len())[j as int] == t@[j as int]);
            }
        }
        i += 1;
    }
    false
}

/// Unicode white space.
pub open spec fn is_white(c: char) -> bool {
    ||| '\u{9}' <= c && c <= '\u{d}'
    ||| c == ' '
    ||| c == '\u{85}'
    ||| c == '\u{a0}'
    ||| c == '\u{1680}'
    ||| '\u{2000}' <= c && c <= '\u{200a}'
    ||| c == '\u{2028}'
    ||| c == '\u{2029}'
    ||| c == '\u{202f}'
    ||| c == '\u{205f}'
    ||| c == '\u{3000}'
}

/// Whether a character is white space.
pub fn white(c: char) -> (r: bool)
    ensures
        r == is_white(c),
{
    ('\u{9}' <= c && c <= '\u{d}') || c == ' ' || c == '\u{85}' || c == '\u{a0}' || c == '\u{1680}'
        || ('\u{2000}' <= c && c <= '\u{200a}') || c == '\u{2028}' || c == '\u{2029}' || c
        == '\u{202f}' || c == '\u{205f}' || c == '\u{3000}'
}

/// How many characters stand before the first white space.
pub open spec fn word_len(s: Seq<char>) -> nat
    decreases s.len(),
{
    if s.len() == 0 || is_white(s[0]) {
        0
    } else {
        1 + word_len(s.subrange(1, s.len() as int))
    }
}

/// The words of a text: its longest stretches without white space, in order.
pub open spec fn words(s: Seq<char>) -> Seq<Seq<char>>
    decreases s.len(),
{
    if s.len() == 0 {
        Seq::empty()
    } else if is_white(s[0]) {
        words(s.subrange(1, s.len() as int))
    } else if word_len(s) <= s.len() {
        seq![s.subrange(0, word_len(s) as int)] + words(
            s.subrange(word_len(s) as int, s.len() as int),
        )
    } else {
        Seq::empty()
    }
}

/// A word ends where it says: within the text, at white space or the end.
pub proof fn lemma_word_len(s: Seq<char>, n: int)
    requires
        0 <= n <= s.len(),
        forall|i: int| 0 <= i < n ==> !is_white(#[trigger] s[i]),
        n == s.len() || is_white(s[n]),
    ensures
        word_len(s) == n,
    decreases s.len(),
{
    if n > 0 {
        assert(!is_white(s[0]));
        let t = s.subrange(1, s.len() as int);
        assert forall|i: int| 0 <= i < n - 1 implies !is_white(#[trigger] t[i]) by {
            assert(t[i] == s[i + 1]);
        }
        lemma_word_len(t, n - 1);
    }
}

/// The stretches of `s` given by index pairs.
pub open spec fn stretches(s: Seq<char>, ranges: Seq<(usize, usize)>) -> Seq<Seq<char>> {
    Seq::new(ranges.len(), |i: int| s.subrange(ranges[i].0 as int, ranges[i].1 as int))
}

/// Index pairs that lie in a text of `n` characters.
pub open spec fn ranges_fit(ranges: Seq<(usize, usize)>, n: nat) -> bool {
    forall|i: int| 0 <= i < ranges.len() ==> (#[trigger] ranges[i]).0 <= ranges[i].1 <= n
}

/// Where the words of a text are.
pub fn find_words(s: &[char]) -> (ranges: Vec<(usize, usize)>)
    ensures
        ranges_fit(ranges@, s@.len()),
        stretches(s@, ranges@) == words(s@),
{
    let mut ranges: Vec<(usize, usize)> = Vec::new();
    let mut i: usize = 0;
    assert(s@.subrange(0, s@.len() as int) =~= s@);
    assert(stretches(s@, ranges@) + words(s@) =~= words(s@));
    while i < s.len()
        invariant
            i <= s@.len(),
            ranges_fit(ranges@, s@.len()),
            stretches(s@, ranges@) + words(s@.subrange(i as int, s@.len() as int)) == words(s@),
        decreases s@.len() - i,
    {
        let ghost rest = s@.subrange(i as int, s@.len() as int);
        if white(s[i]) {
            assert(rest.subrange(1, rest.len() as int) =~= s@.subrange(i + 1, s@.len() as int));
            i += 1;
        } else {
            let start: usize = i;
            while i < s.len() && !white(s[i])
                invariant
                    start <= i <= s@.len(),
                    forall|k: int| start <= k < i ==> !is_white(#[trigger] s@[k]),
                decreases s@.len() - i,
            {
                i += 1;
            }
            let ghost n = i - start;
            let ghost before = ranges@;
            assert(i > start);
            ranges.push((start, i));
            proof {
                assert forall|k: int| 0 <= k < n implies !is_white(#[trigger] rest[k]) by {
                    assert(rest[k] == s@[start + k]);
                }
                lemma_word_len(rest, n);
                assert(rest.subrange(0, n) =~= s@.subrange(start as int, i as int));
                assert(rest.subrange(n, rest.len() as int) =~= s@.subrange(
                    i as int,
                    s@.len() as int,
                ));
                assert(stretches(s@, ranges@) =~= stretches(s@, before) + seq![rest.subrange(0, n)]);
                assert(stretches(s@, ranges@) + words(s@.subrange(i as int, s@.len() as int))
                    =~= stretches(s@, before) + (seq![rest.subrange(0, n)] + words(
                    s@.subrange(i as int, s@.len() as int),
                )));
            }
        }
    }
    assert(s@.subrange(i as int, s@.len() as int) =~= Seq::<char>::empty());
    assert(stretches(s@, ranges@) =~= stretches(s@, ranges@) + Seq::<Seq<char>>::empty());
    ranges
}

/// The position of the first `c`, or the length.
pub open spec fn first_of(s: Seq<char>, c: char) -> nat
    decreases s.len(),
{
    if s.len() == 0 || s[0] == c {
        0
    } else {
        1 + first_of(s.subrange(1, s.len() as int), c)
    }
}

/// The pieces of a text between the characters `c`: one more than there are of
/// them.
pub open spec fn pieces(s: Seq<char>, c: char) -> Seq<Seq<char>>
    decreases s.len(),
{
    let n = first_of(s, c) as int;
    if n < s.len() {
        seq![s.subrange(0, n)] + pieces(s.subrange(n + 1, s.len() as int), c)
    } else {
        seq![s]
    }
}

/// The first `c` stands where it says.
pub proof fn lemma_first_of(s: Seq<char>, c: char, n: int)
    requires
        0 <= n <= s.len(),
        forall|i: int| 0 <= i < n ==> #[trigger] s[i] != c,
        n == s.len() || s[n] == c,
    ensures
        first_of(s, c) == n,
    decreases s.len(),
{
    if n > 0 {
        assert(s[0] != c);
        let t = s.subrange(1, s.len() as int);
        assert forall|i: int| 0 <= i < n - 1 implies #[trigger] t[i] != c by {
            assert(t[i] == s[i + 1]);
        }
        lemma_first_of(t, c, n - 1);
    }
}

/// The position of the first `c` from `from` on, or the length.
pub fn find_from(s: &[char], c: char, from: usize) -> (i: usize)
    requires
        from <= s@.len(),
    ensures
        from <= i <= s@.len(),
        i - from == first_of(s@.subrange(from as int, s@.len() as int), c),
{
    let mut i: usize = from;
    while i < s.len() && s[i] != c
        invariant
            from <= i <= s@.len(),
            forall|k: int| from <= k < i ==> #[trigger] s@[k] != c,
        decreases s@.len() - i,
    {
        i += 1;
    }
    let ghost t = s@.subrange(from as int, s@.len() as int);
    assert forall|k: int| 0 <= k < i - from implies #[trigger] t[k] != c by {
        assert(t[k] == s@[from + k]);
    }
    proof {
        lemma_first_of(t, c, i - from);
    }
    i
}

/// Where the pieces between the characters `c` are.
pub fn find_pieces(s: &[char], c: char) -> (ranges: Vec<(usize, usize)>)
    ensures
        ranges@.len() > 0,
        ranges_fit(ranges@, s@.len()),
        stretches(s@, ranges@) == pieces(s@, c),
{
    let mut ranges: Vec<(usize, usize)> = Vec::new();
    let mut i: usize = 0;
    assert(s@.subrange(0, s@.len() as int) =~= s@);
    assert(stretches(s@, ranges@) + pieces(s@, c) =~= pieces(s@, c));
    loop
        invariant
            i <= s@.len(),
            ranges_fit(ranges@, s@.len()),
            stretches(s@, ranges@) + pieces(s@.subrange(i as int, s@.len() as int), c) == pieces(
                s@,
                c,
            ),
        decreases s@.len() - i,
    {
        let ghost rest = s@.subrange(i as int, s@.len() as int);
        let ghost before = ranges@;
        let end: usize = find_from(s, c, i);
        ranges.push((i, end));
        proof {
            assert(rest.subrange(0, end - i) =~= s@.subrange(i as int, end as int));
            assert(stretches(s@, ranges@) =~= stretches(s@, before) + seq![
                s@.subrange(i as int, end as int),
            ]);
        }
        if end == s.len() {
            assert(rest.subrange(0, end - i) =~= rest);
            return ranges;
        }
        proof {
            let tail = s@.subrange(end + 1, s@.len() as int);
            assert(rest.subrange(end - i + 1, rest.len() as int) =~= tail);
            assert(stretches(s@, ranges@) + pieces(tail, c) =~= stretches(s@, before) + (seq![
                s@.subrange(i as int, end as int),
            ] + pieces(tail, c)));
        }
        i = end + 1;
    }
}

} // verus!
