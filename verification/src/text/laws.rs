//! How texts are read and taken apart.

use crate::text;
use vstd::prelude::*;

verus! {

/// The ten digits, in order, stand for the numbers from zero to nine.
pub proof fn law_digits(c: char)
    ensures
        text::is_digit(c) <==> 48 <= c as u32 <= 57,
        text::is_digit(c) ==> text::digit_value(c) == c as u32 - 48,
{
}

/// A digit behind others counts once, and they count ten times.
pub proof fn law_decimal(s: Seq<char>, c: char)
    ensures
        text::decimal_value(Seq::empty()) == 0,
        text::decimal_value(s.push(c)) == 10 * text::decimal_value(s) + text::digit_value(c),
{
    assert(s.push(c).drop_last() =~= s);
}

/// A number is written in digits without a zero in front, and reads as itself.
pub proof fn law_decimal_written(x: nat)
    ensures
        ({
            let s = text::decimal_text(x);
            &&& s.len() >= 1
            &&& forall|i: int| 0 <= i < s.len() ==> 48 <= (#[trigger] s[i]) as u32 <= 57
            &&& s.len() > 1 ==> s[0] as u32 != 48
            &&& text::decimal_value(s) == x
        }),
    decreases x,
{
    text::lemma_decimal_text(x);
    lemma_no_zero(x);
    let s = text::decimal_text(x);
    assert forall|i: int| 0 <= i < s.len() implies 48 <= (#[trigger] s[i]) as u32 <= 57 by {
        assert(text::is_digit(s[i]));
    }
}

proof fn lemma_no_zero(x: nat)
    ensures
        text::decimal_text(x).len() >= 1,
        x > 0 ==> text::decimal_text(x)[0] as u32 != 48,
        text::decimal_text(x).len() > 1 ==> x > 0,
    decreases x,
{
    if x >= 10 {
        lemma_no_zero(x / 10);
    }
}

/// A text is read as a number if it is digits, at least one, behind one plus
/// sign or none, and stands for no more than the greatest; it is then read as
/// what they stand for.
pub proof fn law_number_read(s: Seq<char>, max: nat)
    requires
        s.len() > 0,
        forall|i: int| 0 <= i < s.len() ==> 48 <= (#[trigger] s[i]) as u32 <= 57,
    ensures
        text::parsed_unsigned(s, max) == if text::decimal_value(s) <= max {
            Some(text::decimal_value(s))
        } else {
            None
        },
        text::parsed_unsigned(seq!['+'] + s, max) == text::parsed_unsigned(s, max),
        text::parsed_unsigned(seq!['+', '+'] + s, max) is None,
        text::parsed_unsigned(seq!['-'] + s, max) is None,
{
    assert(s[0] != '+');
    assert forall|i: int| 0 <= i < s.len() implies text::is_digit(#[trigger] s[i]) by {
        law_digits(s[i]);
    }
    let p = seq!['+'] + s;
    assert(p.subrange(1, p.len() as int) =~= s);
    let q = seq!['+', '+'] + s;
    assert(q.subrange(1, q.len() as int)[0] == '+');
    let m = seq!['-'] + s;
    assert(m[0] == '-');
    assert(text::unsigned_digits(m) == m);
    assert(!text::is_digit(m[0]));
}

/// What is no number is not read.
pub proof fn law_no_number_read(s: Seq<char>, max: nat, i: int)
    requires
        s.len() == 0 || 0 <= i < s.len() && !(48 <= s[i] as u32 <= 57) && (i > 0 || s[0] != '+'),
    ensures
        text::parsed_unsigned(s, max) is None,
{
    if s.len() > 0 {
        let d = text::unsigned_digits(s);
        if s[0] == '+' {
            assert(d[i - 1] == s[i]);
        } else {
            assert(d[i] == s[i]);
        }
    }
}

/// Upper and lower case differ in the letters from A to Z only, by the distance
/// of `a` from `A`.
pub proof fn law_letters(c: char)
    ensures
        65 <= c as u32 <= 90 ==> text::ascii_lower(c) as u32 == c as u32 + 32
            && text::ascii_upper(text::ascii_lower(c)) == c,
        97 <= c as u32 <= 122 ==> text::ascii_upper(c) as u32 == c as u32 - 32
            && text::ascii_lower(text::ascii_upper(c)) == c,
        !(65 <= c as u32 <= 90) ==> text::ascii_lower(c) == c,
        !(97 <= c as u32 <= 122) ==> text::ascii_upper(c) == c,
{
}

/// The white characters below 128 are the space and those from tab to return.
pub proof fn law_white(c: char)
    requires
        (c as u32) < 128,
    ensures
        text::is_white(c) <==> c as u32 == 32 || 9 <= c as u32 <= 13,
{
}

proof fn lemma_word_within(s: Seq<char>)
    ensures
        text::word_len(s) <= s.len(),
        forall|i: int| 0 <= i < text::word_len(s) ==> !text::is_white(#[trigger] s[i]),
        text::word_len(s) < s.len() ==> text::is_white(s[text::word_len(s) as int]),
    decreases s.len(),
{
    if s.len() > 0 && !text::is_white(s[0]) {
        let t = s.subrange(1, s.len() as int);
        lemma_word_within(t);
        assert forall|i: int| 0 <= i < text::word_len(s) implies !text::is_white(
            #[trigger] s[i],
        ) by {
            if i > 0 {
                assert(t[i - 1] == s[i]);
            }
        }
    }
}

/// A text without white space is one word.
pub proof fn law_one_word(s: Seq<char>)
    requires
        s.len() > 0,
        forall|i: int| 0 <= i < s.len() ==> !text::is_white(#[trigger] s[i]),
    ensures
        text::words(s) == seq![s],
{
    text::lemma_word_len(s, s.len() as int);
    assert(s.subrange(0, s.len() as int) =~= s);
    assert(s.subrange(s.len() as int, s.len() as int) =~= Seq::empty());
    assert(text::words(Seq::empty()) =~= Seq::empty());
    assert(text::words(s) =~= seq![s]);
}

/// White space parts words.
pub proof fn law_words_parted(a: Seq<char>, w: char, b: Seq<char>)
    requires
        text::is_white(w),
    ensures
        text::words(a.push(w) + b) == text::words(a) + text::words(b),
    decreases a.len(),
{
    let s = a.push(w) + b;
    if a.len() == 0 {
        assert(s.subrange(1, s.len() as int) =~= b);
        assert(text::words(a) =~= Seq::empty());
        assert(text::words(a) + text::words(b) =~= text::words(b));
    } else if text::is_white(a[0]) {
        let t = a.subrange(1, a.len() as int);
        law_words_parted(t, w, b);
        assert(s.subrange(1, s.len() as int) =~= t.push(w) + b);
    } else {
        lemma_word_within(a);
        let n = text::word_len(a) as int;
        assert(n > 0);
        assert forall|i: int| 0 <= i < n implies !text::is_white(#[trigger] s[i]) by {
            assert(s[i] == a[i]);
        }
        assert(text::is_white(s[n])) by {
            if n < a.len() {
                assert(s[n] == a[n]);
            } else {
                assert(s[n] == w);
            }
        }
        text::lemma_word_len(s, n);
        let t = a.subrange(n, a.len() as int);
        law_words_parted(t, w, b);
        assert(s.subrange(n, s.len() as int) =~= t.push(w) + b);
        assert(s.subrange(0, n) =~= a.subrange(0, n));
        assert(text::words(s) =~= text::words(a) + text::words(b));
    }
}

/// A text without the character that parts pieces is one piece.
pub proof fn law_one_piece(s: Seq<char>, c: char)
    requires
        forall|i: int| 0 <= i < s.len() ==> #[trigger] s[i] != c,
    ensures
        text::pieces(s, c) == seq![s],
{
    text::lemma_first_of(s, c, s.len() as int);
}

/// The character parts what stands before it from what stands behind.
pub proof fn law_pieces_parted(a: Seq<char>, c: char, b: Seq<char>)
    requires
        forall|i: int| 0 <= i < a.len() ==> #[trigger] a[i] != c,
    ensures
        text::pieces(a.push(c) + b, c) == seq![a] + text::pieces(b, c),
{
    let s = a.push(c) + b;
    let n = a.len() as int;
    assert forall|i: int| 0 <= i < n implies #[trigger] s[i] != c by {
        assert(s[i] == a[i]);
    }
    text::lemma_first_of(s, c, n);
    assert(s.subrange(0, n) =~= a);
    assert(s.subrange(n + 1, s.len() as int) =~= b);
}

} // verus!
