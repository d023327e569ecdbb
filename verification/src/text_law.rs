//! What the searching, cutting and writing of text comes to, said character by character.

use crate::decimal;
use crate::text;
use vstd::prelude::*;

verus! {

/// Spaces, tabs and line breaks are white, and so is the wide space; what is printed on an ASCII
/// keyboard is not, nor is anything beyond the wide space.
pub proof fn law_white_space(c: char)
    ensures
        text::is_white(c) <==> c == ' ' || '\t' <= c <= '\r' || c == '\u{85}' || c == '\u{a0}' || c
            == '\u{1680}' || '\u{2000}' <= c <= '\u{200a}' || c == '\u{2028}' || c == '\u{2029}'
            || c == '\u{202f}' || c == '\u{205f}' || c == '\u{3000}',
{
}

proof fn lemma_trim_start(s: Seq<char>) -> (a: int)
    ensures
        0 <= a <= s.len(),
        text::trim_start(s) == s.skip(a),
        forall|i: int| 0 <= i < a ==> text::is_white(#[trigger] s[i]),
        a < s.len() ==> !text::is_white(s[a]),
    decreases s.len(),
{
    if s.len() > 0 && text::is_white(s[0]) {
        let a = lemma_trim_start(s.drop_first());
        assert(s.drop_first().skip(a) =~= s.skip(a + 1));
        assert forall|i: int| 0 <= i < a + 1 implies text::is_white(#[trigger] s[i]) by {
            if i > 0 {
                assert(text::is_white(s.drop_first()[i - 1]));
            }
        }
        a + 1
    } else {
        assert(s.skip(0) =~= s);
        0
    }
}

proof fn lemma_trim_end(s: Seq<char>) -> (b: int)
    ensures
        0 <= b <= s.len(),
        text::trim_end(s) == s.take(b),
        forall|i: int| b <= i < s.len() ==> text::is_white(#[trigger] s[i]),
        b > 0 ==> !text::is_white(s[b - 1]),
    decreases s.len(),
{
    if s.len() > 0 && text::is_white(s.last()) {
        let b = lemma_trim_end(s.drop_last());
        assert(s.drop_last().take(b) =~= s.take(b));
        assert forall|i: int| b <= i < s.len() implies text::is_white(#[trigger] s[i]) by {
            if i < s.len() - 1 {
                assert(text::is_white(s.drop_last()[i]));
            }
        }
        b
    } else {
        assert(s.take(s.len() as int) =~= s);
        s.len() as int
    }
}

/// Trimming cuts a text out of itself: what falls off at either end is white, and what is left
/// neither begins nor ends with white space.
pub proof fn law_trim(s: Seq<char>)
    ensures
        exists|a: int, b: int|
            0 <= a <= b <= s.len() && #[trigger] s.subrange(a, b) == text::trim(s) && (forall|i: int|
                0 <= i < a || b <= i < s.len() ==> text::is_white(#[trigger] s[i])),
        text::trim(s).len() > 0 ==> !text::is_white(text::trim(s)[0]) && !text::is_white(
            text::trim(s).last(),
        ),
{
    let a = lemma_trim_start(s);
    let t = text::trim_start(s);
    let k = lemma_trim_end(t);
    assert(s.subrange(a, a + k) =~= t.take(k));
    assert forall|i: int| 0 <= i < a || a + k <= i < s.len() implies text::is_white(
        #[trigger] s[i],
    ) by {
        if i >= a {
            assert(t[i - a] == s[i]);
        }
    }
    if k > 0 {
        assert(t[0] == s[a]);
    }
}

/// A text is blank where all of it is white.
pub proof fn law_blank(s: Seq<char>)
    ensures
        text::is_blank(s) <==> forall|i: int| 0 <= i < s.len() ==> text::is_white(#[trigger] s[i]),
        text::is_blank(s) <==> text::trim(s) == Seq::<char>::empty(),
{
    law_trim(s);
    let (a, b) = choose|a: int, b: int|
        0 <= a <= b <= s.len() && #[trigger] s.subrange(a, b) == text::trim(s) && (forall|i: int|
            0 <= i < a || b <= i < s.len() ==> text::is_white(#[trigger] s[i]));
    if a < b {
        assert(text::trim(s)[0] == s[a]);
    }
    if text::trim(s).len() == 0 {
        assert(text::trim(s) =~= Seq::<char>::empty());
    }
}

/// Where a text has no white space at its ends it stays as it is.
pub proof fn law_trim_keeps(s: Seq<char>)
    requires
        s.len() > 0 ==> !text::is_white(s[0]) && !text::is_white(s.last()),
    ensures
        text::trim(s) == s,
{
}

/// Taking a character off the end takes all of its kind there and nothing else.
pub proof fn law_trim_end_char(s: Seq<char>, c: char)
    ensures
        ({
            let t = text::trim_end_char(s, c);
            &&& t.len() <= s.len()
            &&& t == s.take(t.len() as int)
            &&& forall|i: int| t.len() <= i < s.len() ==> #[trigger] s[i] == c
            &&& t.len() > 0 ==> t.last() != c
        }),
    decreases s.len(),
{
    let t = text::trim_end_char(s, c);
    if s.len() > 0 && s.last() == c {
        law_trim_end_char(s.drop_last(), c);
        assert(s.drop_last().take(t.len() as int) =~= s.take(t.len() as int));
        assert forall|i: int| t.len() <= i < s.len() implies #[trigger] s[i] == c by {
            if i < s.len() - 1 {
                assert(s.drop_last()[i] == c);
            }
        }
    } else {
        assert(s.take(s.len() as int) =~= s);
    }
}

/// A pattern is in a text where all of its characters follow each other there.
pub proof fn law_contains(s: Seq<char>, pattern: Seq<char>)
    ensures
        text::contains(s, pattern) <==> exists|i: int|
            0 <= i <= s.len() - pattern.len() && #[trigger] s.skip(i).take(pattern.len() as int)
                == pattern,
{
    if text::contains(s, pattern) {
        let i = choose|i: int| text::occurs_at(s, pattern, i);
        assert(s.skip(i).take(pattern.len() as int) =~= s.subrange(i, i + pattern.len()));
    }
    if exists|i: int|
        0 <= i <= s.len() - pattern.len() && #[trigger] s.skip(i).take(pattern.len() as int)
            == pattern {
        let i = choose|i: int|
            0 <= i <= s.len() - pattern.len() && #[trigger] s.skip(i).take(pattern.len() as int)
                == pattern;
        assert(s.subrange(i, i + pattern.len()) =~= s.skip(i).take(pattern.len() as int));
        assert(text::occurs_at(s, pattern, i));
    }
}

proof fn lemma_first(s: Seq<char>, pattern: Seq<char>, n: int) -> (i: int)
    requires
        n >= 0,
        text::occurs_at(s, pattern, n),
    ensures
        text::occurs_at(s, pattern, i),
        forall|j: int| 0 <= j < i ==> !text::occurs_at(s, pattern, j),
    decreases n,
{
    if exists|j: int| 0 <= j < n && text::occurs_at(s, pattern, j) {
        let j = choose|j: int| 0 <= j < n && text::occurs_at(s, pattern, j);
        lemma_first(s, pattern, j)
    } else {
        n
    }
}

/// What is found is the first place where the pattern stands, and nothing is found only where it
/// stands nowhere.
pub proof fn law_find(s: Seq<char>, pattern: Seq<char>)
    ensures
        match text::find(s, pattern) {
            Some(i) => 0 <= i <= s.len() - pattern.len() && s.subrange(i, i + pattern.len())
                == pattern && forall|j: int|
                0 <= j < i && j + pattern.len() <= s.len() ==> #[trigger] s.subrange(
                    j,
                    j + pattern.len(),
                ) != pattern,
            None => forall|j: int|
                0 <= j <= s.len() - pattern.len() ==> #[trigger] s.subrange(j, j + pattern.len())
                    != pattern,
        },
{
    reveal(text::find);
    if text::contains(s, pattern) {
        let n = choose|i: int| text::occurs_at(s, pattern, i);
        let first = lemma_first(s, pattern, n);
        let i = text::find(s, pattern)->0;
        assert(text::occurs_at(s, pattern, i) && forall|j: int|
            0 <= j < i ==> !text::occurs_at(s, pattern, j));
        assert forall|j: int| 0 <= j < i && j + pattern.len() <= s.len() implies #[trigger] s.subrange(
            j,
            j + pattern.len(),
        ) != pattern by {
            assert(!text::occurs_at(s, pattern, j));
        }
    } else {
        assert forall|j: int| 0 <= j <= s.len() - pattern.len() implies #[trigger] s.subrange(
            j,
            j + pattern.len(),
        ) != pattern by {
            assert(!text::occurs_at(s, pattern, j));
        }
    }
}

/// Replacing works from the first place where the pattern stands to the next: what lies before is
/// kept, and a text without the pattern is kept whole.
pub proof fn law_replace(s: Seq<char>, pattern: Seq<char>, with: Seq<char>)
    requires
        pattern.len() > 0,
    ensures
        match text::find(s, pattern) {
            None => text::replace(s, pattern, with) == s,
            Some(i) => text::replace(s, pattern, with) == s.take(i) + with + text::replace(
                s.skip(i + pattern.len()),
                pattern,
                with,
            ),
        },
    decreases s.len(),
{
    law_find(s, pattern);
    if s.len() == 0 {
    } else if text::occurs_at(s, pattern, 0) {
        let i = text::find(s, pattern)->0;
        assert(text::contains(s, pattern));
        assert(text::find(s, pattern) is Some) by {
            reveal(text::find);
        }
        assert(i == 0) by {
            if i > 0 {
                assert(s.subrange(0, 0int + pattern.len()) == pattern);
            }
        }
        assert(s.take(0) + with =~= with);
    } else {
        let rest = s.drop_first();
        law_find(rest, pattern);
        law_replace(rest, pattern, with);
        match text::find(s, pattern) {
            Some(i) => {
                assert(i > 0);
                assert(rest.subrange(i - 1, i - 1 + pattern.len()) =~= s.subrange(
                    i,
                    i + pattern.len(),
                ));
                assert(text::find(rest, pattern) is Some);
                let k = text::find(rest, pattern)->0;
                assert(s.subrange(k + 1, k + 1 + pattern.len()) =~= rest.subrange(
                    k,
                    k + pattern.len(),
                ));
                assert(k == i - 1);
                assert(rest.skip(k + pattern.len()) =~= s.skip(i + pattern.len()));
                assert(seq![s[0]] + (rest.take(k) + with + text::replace(
                    rest.skip(k + pattern.len()),
                    pattern,
                    with,
                )) =~= s.take(i) + with + text::replace(s.skip(i + pattern.len()), pattern, with));
            },
            None => {
                match text::find(rest, pattern) {
                    Some(k) => {
                        assert(s.subrange(k + 1, k + 1 + pattern.len()) =~= rest.subrange(
                            k,
                            k + pattern.len(),
                        ));
                    },
                    None => {},
                }
                assert(seq![s[0]] + rest =~= s);
            },
        }
    }
}

/// Cutting at separators: a text with a separator in it is cut there, and a text without one is a
/// single piece.
pub proof fn law_split(a: Seq<char>, b: Seq<char>, separators: Seq<char>, c: char)
    requires
        separators.contains(c),
    ensures
        text::split(a + seq![c] + b, separators) == text::split(a, separators) + text::split(
            b,
            separators,
        ),
        text::split(b, separators).len() > 0,
        (forall|i: int| 0 <= i < b.len() ==> !separators.contains(#[trigger] b[i]))
            ==> text::split(b, separators) == seq![b],
    decreases b.len(),
{
    let whole = a + seq![c] + b;
    if b.len() == 0 {
        assert(whole.drop_last() =~= a);
        assert(whole.last() == c);
        assert(text::split(a, separators) + seq![Seq::<char>::empty()] =~= text::split(
            a,
            separators,
        ).push(Seq::empty()));
        assert(seq![Seq::<char>::empty()] =~= seq![b]) by {
            assert(b =~= Seq::<char>::empty());
        }
    } else {
        let rest = b.drop_last();
        law_split(a, rest, separators, c);
        assert(whole.drop_last() =~= a + seq![c] + rest);
        assert(whole.last() == b.last());
        let x = text::split(a, separators);
        let y = text::split(rest, separators);
        if separators.contains(b.last()) {
            assert((x + y).push(Seq::empty()) =~= x + y.push(Seq::empty()));
        } else {
            assert((x + y).drop_last().push((x + y).last().push(b.last())) =~= x
                + y.drop_last().push(y.last().push(b.last())));
        }
        if forall|i: int| 0 <= i < b.len() ==> !separators.contains(#[trigger] b[i]) {
            assert forall|i: int| 0 <= i < rest.len() implies !separators.contains(
                #[trigger] rest[i],
            ) by {
                assert(rest[i] == b[i]);
            }
            assert(!separators.contains(b[b.len() - 1]));
            assert(y.drop_last().push(y.last().push(b.last())) =~= seq![b]) by {
                assert(rest.push(b.last()) =~= b);
            }
        }
    }
}

/// Small letters: every Latin capital becomes the letter thirty-two places on, and nothing else
/// changes.
pub proof fn law_lower(s: Seq<char>)
    ensures
        text::lower(s).len() == s.len(),
        forall|i: int|
            0 <= i < s.len() ==> if 'A' <= s[i] <= 'Z' {
                (#[trigger] text::lower(s)[i]) as int == s[i] as int + 32
            } else {
                text::lower(s)[i] == s[i]
            },
        text::lower(text::lower(s)) == text::lower(s),
{
    assert(text::lower(text::lower(s)) =~= text::lower(s));
}

/// Two texts are the same but for case where they have the same small letters.
pub proof fn law_same_ignoring_case(a: Seq<char>, b: Seq<char>)
    ensures
        text::same_ignoring_case(a, b) <==> a.len() == b.len() && forall|i: int|
            0 <= i < a.len() ==> #[trigger] text::lower(a)[i] == text::lower(b)[i],
{
    law_lower(a);
    law_lower(b);
    if a.len() == b.len() && forall|i: int|
        0 <= i < a.len() ==> #[trigger] text::lower(a)[i] == text::lower(b)[i] {
        assert(text::lower(a) =~= text::lower(b));
    }
}

/// A row of digits is worth ten times what it was with one digit more, and that digit.
pub proof fn law_digits_value(s: Seq<char>, c: char)
    ensures
        decimal::digits_value(Seq::empty()) == 0,
        '0' <= c <= '9' ==> decimal::digits_value(s.push(c)) == 10 * decimal::digits_value(s) + (
        c as int - '0' as int),
        decimal::is_digit(c) <==> '0' <= c <= '9',
{
    assert(s.push(c).drop_last() =~= s);
}

/// A number is written in its decimal digits, none of them a zero too many.
pub proof fn law_digits(n: nat)
    ensures
        decimal::digits_value(text::digits(n)) == n,
        text::digits(n).len() > 0,
        forall|i: int|
            0 <= i < text::digits(n).len() ==> '0' <= #[trigger] text::digits(n)[i] <= '9',
        n > 0 ==> text::digits(n)[0] != '0',
    decreases n,
{
    if n < 10 {
        let c = ('0' as u8 + n) as char;
        law_digits_value(Seq::empty(), c);
        assert(Seq::<char>::empty().push(c) =~= seq![c]);
    } else {
        law_digits(n / 10);
        law_digits_value(text::digits(n / 10), ('0' as u8 + n % 10) as char);
    }
}

/// A negative number is written with a minus sign before its digits, any other without.
pub proof fn law_signed_digits(n: nat)
    ensures
        text::signed_digits(n as int) == text::digits(n),
        n > 0 ==> text::signed_digits(-n) == seq!['-'] + text::digits(n),
{
}

} // verus!
