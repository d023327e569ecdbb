//! Text as a row of characters: trimming, splitting, searching, replacing and comparing.

use vstd::prelude::*;
use vstd::slice::*;

verus! {

/// `String::push` puts one character behind the others.
pub assume_specification[ String::push ](string: &mut String, ch: char)
    ensures
        final(string)@ == old(string)@.push(ch),
;

/// The characters with the Unicode property `White_Space`.
pub open spec fn is_white(c: char) -> bool {
    let code = c as nat;
    ||| 0x9 <= code <= 0xd
    ||| code == 0x20
    ||| code == 0x85
    ||| code == 0xa0
    ||| code == 0x1680
    ||| 0x2000 <= code <= 0x200a
    ||| code == 0x2028
    ||| code == 0x2029
    ||| code == 0x202f
    ||| code == 0x205f
    ||| code == 0x3000
}

/// `s` without white space at its start.
pub open spec fn trim_start(s: Seq<char>) -> Seq<char>
    decreases s.len(),
{
    if s.len() > 0 && is_white(s[0]) {
        trim_start(s.drop_first())
    } else {
        s
    }
}

/// `s` without white space at its end.
pub open spec fn trim_end(s: Seq<char>) -> Seq<char>
    decreases s.len(),
{
    if s.len() > 0 && is_white(s.last()) {
        trim_end(s.drop_last())
    } else {
        s
    }
}

/// `s` without white space at either end.
pub open spec fn trim(s: Seq<char>) -> Seq<char> {
    trim_end(trim_start(s))
}

/// Nothing but white space.
pub open spec fn is_blank(s: Seq<char>) -> bool {
    trim(s).len() == 0
}

/// `s` without the `c`s at its end.
pub open spec fn trim_end_char(s: Seq<char>, c: char) -> Seq<char>
    decreases s.len(),
{
    if s.len() > 0 && s.last() == c {
        trim_end_char(s.drop_last(), c)
    } else {
        s
    }
}

/// The pieces of `s` between the characters of `separators`; one piece more than separators occur.
pub open spec fn split(s: Seq<char>, separators: Seq<char>) -> Seq<Seq<char>>
    decreases s.len(),
{
    if s.len() == 0 {
        seq![Seq::empty()]
    } else {
        let before = split(s.drop_last(), separators);
        if separators.contains(s.last()) {
            before.push(Seq::empty())
        } else {
            before.drop_last().push(before.last().push(s.last()))
        }
    }
}

/// `pattern` stands in `s` at `i`.
pub open spec fn occurs_at(s: Seq<char>, pattern: Seq<char>, i: int) -> bool {
    0 <= i && i + pattern.len() <= s.len() && s.subrange(i, i + pattern.len()) == pattern
}

/// `pattern` stands somewhere in `s`.
pub open spec fn contains(s: Seq<char>, pattern: Seq<char>) -> bool {
    exists|i: int| occurs_at(s, pattern, i)
}

/// Where `pattern` first stands in `s`.
#[verifier::opaque]
pub open spec fn find(s: Seq<char>, pattern: Seq<char>) -> Option<int> {
    if contains(s, pattern) {
        Some(
            choose|i: int|
                occurs_at(s, pattern, i) && forall|j: int| 0 <= j < i ==> !occurs_at(s, pattern, j),
        )
    } else {
        None
    }
}

/// `s` with each `pattern`, taken from the left and without overlap, replaced.
pub open spec fn replace(s: Seq<char>, pattern: Seq<char>, with: Seq<char>) -> Seq<char>
    recommends
        pattern.len() > 0,
    decreases s.len(),
{
    if s.len() == 0 || pattern.len() == 0 {
        s
    } else if occurs_at(s, pattern, 0) {
        with + replace(s.skip(pattern.len() as int), pattern, with)
    } else {
        seq![s[0]] + replace(s.drop_first(), pattern, with)
    }
}

/// The small letter for a capital of the Latin alphabet, any other character as it is.
pub open spec fn lower_char(c: char) -> char {
    if 'A' <= c && c <= 'Z' {
        (c as u8 + 32) as char
    } else {
        c
    }
}

pub open spec fn lower(s: Seq<char>) -> Seq<char> {
    s.map_values(|c: char| lower_char(c))
}

/// Equal up to the case of Latin letters.
pub open spec fn same_ignoring_case(a: Seq<char>, b: Seq<char>) -> bool {
    lower(a) == lower(b)
}

/// The decimal digits of `n`, without leading zeros.
pub open spec fn digits(n: nat) -> Seq<char>
    decreases n,
{
    if n < 10 {
        seq![('0' as u8 + n) as char]
    } else {
        digits(n / 10).push(('0' as u8 + n % 10) as char)
    }
}

/// `n` in decimal, with a minus sign where it is negative.
pub open spec fn signed_digits(n: int) -> Seq<char> {
    if n < 0 {
        seq!['-'] + digits((-n) as nat)
    } else {
        digits(n as nat)
    }
}

/// The characters of a string.
pub fn chars(s: &str) -> (r: Vec<char>)
    ensures
        r@ == s@,
{
    let mut r: Vec<char> = Vec::new();
    for c in it: s.chars()
        invariant
            it.seq() == s@,
            r@ == s@.take(it.index() as int),
    {
        r.push(c);
    }
    r
}

/// The string of these characters.
pub fn string(s: &[char]) -> (r: String)
    ensures
        r@ == s@,
{
    let mut r = String::new();
    let mut i: usize = 0;
    while i < s.len()
        invariant
            i <= s@.len(),
            r@ == s@.take(i as int),
        decreases s@.len() - i,
    {
        r.push(s[i]);
        assert(s@.take(i + 1) =~= s@.take(i as int).push(s@[i as int]));
        i = i + 1;
    }
    assert(s@.take(s@.len() as int) =~= s@);
    r
}

/// Whether two rows of characters are the same.
pub fn same(a: &[char], b: &[char]) -> (r: bool)
    ensures
        r == (a@ == b@),
{
    if a.len() != b.len() {
        return false;
    }
    let mut i: usize = 0;
    while i < a.len()
        invariant
            i <= a@.len(),
            a@.len() == b@.len(),
            forall|j: int| 0 <= j < i ==> a@[j] == b@[j],
        decreases a@.len() - i,
    {
        if a[i] != b[i] {
            return false;
        }
        i = i + 1;
    }
    assert(a@ =~= b@);
    true
}

/// Whether two strings are the same.
pub fn same_text(a: &str, b: &str) -> (r: bool)
    ensures
        r == (a@ == b@),
{
    same(chars(a).as_slice(), chars(b).as_slice())
}

/// Whether `c` is white space.
pub fn white(c: char) -> (r: bool)
    ensures
        r == is_white(c),
{
    let code: u32 = c as u32;
    (0x9 <= code && code <= 0xd) || code == 0x20 || code == 0x85 || code == 0xa0 || code == 0x1680
        || (0x2000 <= code && code <= 0x200a) || code == 0x2028 || code == 0x2029 || code == 0x202f
        || code == 0x205f || code == 0x3000
}

/// `s` without white space at either end.
pub fn trimmed(s: &[char]) -> (r: &[char])
    ensures
        r@ == trim(s@),
        r@.len() <= s@.len(),
{
    let mut start: usize = 0;
    assert(s@.skip(0) =~= s@);
    while start < s.len() && white(s[start])
        invariant
            start <= s@.len(),
            trim_start(s@.skip(start as int)) == trim_start(s@),
        decreases s@.len() - start,
    {
        assert(s@.skip(start as int).drop_first() =~= s@.skip(start + 1));
        start = start + 1;
    }
    let mut end: usize = s.len();
    let ghost body = s@.skip(start as int);
    assert(trim_start(s@) == body);
    assert(s@.subrange(start as int, end as int) =~= body);
    while end > start && white(s[end - 1])
        invariant
            start <= end <= s@.len(),
            trim_end(s@.subrange(start as int, end as int)) == trim_end(body),
        decreases end,
    {
        assert(s@.subrange(start as int, end as int).drop_last() =~= s@.subrange(
            start as int,
            end - 1,
        ));
        end = end - 1;
    }
    slice_subrange(s, start, end)
}

/// Whether `s` is nothing but white space.
pub fn blank(s: &str) -> (r: bool)
    ensures
        r == is_blank(s@),
{
    trimmed(chars(s).as_slice()).len() == 0
}

/// `s` without white space at either end, as a string of its own.
pub fn trimmed_text(s: &str) -> (r: String)
    ensures
        r@ == trim(s@),
{
    string(trimmed(chars(s).as_slice()))
}

/// `s` without the `c`s at its end.
pub fn without_end(s: &[char], c: char) -> (r: &[char])
    ensures
        r@ == trim_end_char(s@, c),
{
    let mut end: usize = s.len();
    assert(s@.take(end as int) =~= s@);
    while end > 0 && s[end - 1] == c
        invariant
            end <= s@.len(),
            trim_end_char(s@.take(end as int), c) == trim_end_char(s@, c),
        decreases end,
    {
        assert(s@.take(end as int).drop_last() =~= s@.take(end - 1));
        end = end - 1;
    }
    slice_subrange(s, 0, end)
}

/// Whether `c` is among `set`.
pub fn among(c: char, set: &[char]) -> (r: bool)
    ensures
        r == set@.contains(c),
{
    let mut i: usize = 0;
    while i < set.len()
        invariant
            i <= set@.len(),
            forall|j: int| 0 <= j < i ==> set@[j] != c,
        decreases set@.len() - i,
    {
        if set[i] == c {
            return true;
        }
        i = i + 1;
    }
    false
}

/// The views of the pieces.
pub open spec fn views(pieces: Seq<Vec<char>>) -> Seq<Seq<char>> {
    pieces.map_values(|piece: Vec<char>| piece@)
}

/// The pieces of `s` between the characters of `separators`.
pub fn pieces(s: &[char], separators: &[char]) -> (r: Vec<Vec<char>>)
    ensures
        views(r@) == split(s@, separators@),
        r@.len() > 0,
{
    let mut r: Vec<Vec<char>> = Vec::new();
    let mut piece: Vec<char> = Vec::new();
    let mut i: usize = 0;
    while i < s.len()
        invariant
            i <= s@.len(),
            views(r@).push(piece@) == split(s@.take(i as int), separators@),
        decreases s@.len() - i,
    {
        let ghost before = views(r@).push(piece@);
        assert(s@.take(i + 1).drop_last() =~= s@.take(i as int));
        if among(s[i], separators) {
            r.push(piece);
            assert(views(r@) =~= before);
            piece = Vec::new();
            assert(piece@ =~= Seq::<char>::empty());
        } else {
            piece.push(s[i]);
            assert(before.drop_last() =~= views(r@));
            assert(views(r@).push(piece@) =~= before.drop_last().push(
                before.last().push(s@[i as int]),
            ));
        }
        i = i + 1;
    }
    assert(s@.take(s@.len() as int) =~= s@);
    let ghost all = views(r@).push(piece@);
    r.push(piece);
    assert(views(r@) =~= all);
    r
}

/// Whether `pattern` stands in `s` at `i`.
fn stands_at(s: &[char], pattern: &[char], i: usize) -> (r: bool)
    requires
        i <= s@.len(),
    ensures
        r == occurs_at(s@, pattern@, i as int),
{
    if s.len() - i < pattern.len() {
        return false;
    }
    same(slice_subrange(s, i, i + pattern.len()), pattern)
}

/// Where `pattern` first stands in `s`.
pub fn position(s: &[char], pattern: &[char]) -> (r: Option<usize>)
    ensures
        match r {
            Some(i) => find(s@, pattern@) == Some(i as int) && occurs_at(s@, pattern@, i as int),
            None => find(s@, pattern@) is None,
        },
        r is Some <==> contains(s@, pattern@),
{
    let mut i: usize = 0;
    loop
        invariant
            i <= s@.len(),
            forall|j: int| 0 <= j < i ==> !occurs_at(s@, pattern@, j),
        decreases s@.len() - i,
    {
        if stands_at(s, pattern, i) {
            proof {
                reveal(find);
                let first = choose|k: int|
                    occurs_at(s@, pattern@, k) && forall|j: int|
                        0 <= j < k ==> !occurs_at(s@, pattern@, j);
                assert(first == i) by {
                    if first < i {
                        assert(!occurs_at(s@, pattern@, first));
                    }
                }
            }
            return Some(i);
        }
        if i == s.len() {
            proof {
                reveal(find);
            }
            return None;
        }
        i = i + 1;
    }
}

/// `s` with each `pattern` replaced.
pub fn replaced(s: &[char], pattern: &[char], with: &[char]) -> (r: Vec<char>)
    requires
        pattern@.len() > 0,
    ensures
        r@ == replace(s@, pattern@, with@),
{
    let mut r: Vec<char> = Vec::new();
    let mut i: usize = 0;
    assert(s@.skip(0) =~= s@);
    while i < s.len()
        invariant
            i <= s@.len(),
            pattern@.len() > 0,
            r@ + replace(s@.skip(i as int), pattern@, with@) == replace(s@, pattern@, with@),
        decreases s@.len() - i,
    {
        let ghost rest = s@.skip(i as int);
        if stands_at(s, pattern, i) {
            assert(rest.subrange(0, pattern@.len() as int) =~= s@.subrange(
                i as int,
                i + pattern@.len(),
            ));
            assert(occurs_at(rest, pattern@, 0));
            assert(rest.skip(pattern@.len() as int) =~= s@.skip(i + pattern@.len()));
            let ghost before = r@;
            let mut j: usize = 0;
            while j < with.len()
                invariant
                    j <= with@.len(),
                    r@ == before + with@.take(j as int),
                decreases with@.len() - j,
            {
                r.push(with[j]);
                assert(with@.take(j + 1) =~= with@.take(j as int).push(with@[j as int]));
                j = j + 1;
            }
            assert(with@.take(with@.len() as int) =~= with@);
            i = i + pattern.len();
            assert(r@ + replace(s@.skip(i as int), pattern@, with@) =~= before + (with@ + replace(
                s@.skip(i as int),
                pattern@,
                with@,
            )));
        } else {
            proof {
                if occurs_at(rest, pattern@, 0) {
                    assert(rest.subrange(0, pattern@.len() as int) =~= s@.subrange(
                        i as int,
                        i + pattern@.len(),
                    ));
                }
            }
            assert(rest.drop_first() =~= s@.skip(i + 1));
            let ghost before = r@;
            r.push(s[i]);
            i = i + 1;
            assert(r@ + replace(s@.skip(i as int), pattern@, with@) =~= before + (seq![rest[0]]
                + replace(s@.skip(i as int), pattern@, with@)));
        }
    }
    assert(s@.skip(s@.len() as int) =~= Seq::<char>::empty());
    assert(r@ + Seq::<char>::empty() =~= r@);
    r
}

/// The small letter for a capital.
fn small(c: char) -> (r: char)
    ensures
        r == lower_char(c),
{
    if 'A' <= c && c <= 'Z' {
        (c as u8 + 32) as char
    } else {
        c
    }
}

/// `s` in small letters.
pub fn lowered(s: &[char]) -> (r: Vec<char>)
    ensures
        r@ == lower(s@),
{
    let mut r: Vec<char> = Vec::new();
    let mut i: usize = 0;
    while i < s.len()
        invariant
            i <= s@.len(),
            r@ == lower(s@.take(i as int)),
        decreases s@.len() - i,
    {
        r.push(small(s[i]));
        assert(lower(s@.take(i + 1)) =~= lower(s@.take(i as int)).push(lower_char(s@[i as int])));
        i = i + 1;
    }
    assert(s@.take(s@.len() as int) =~= s@);
    r
}

/// Puts the digits of `n` behind `line`.
pub fn append_number(line: &mut String, n: u64)
    ensures
        final(line)@ == old(line)@ + digits(n as nat),
    decreases n,
{
    if n >= 10 {
        append_number(line, n / 10);
    }
    line.push((48 + (n % 10) as u8) as char);
    assert(old(line)@ + digits(n as nat) =~= line@);
}

/// Puts `n` with its sign behind `line`.
pub fn append_signed(line: &mut String, n: i64)
    ensures
        final(line)@ == old(line)@ + signed_digits(n as int),
{
    if n < 0 {
        let ghost before = line@;
        line.push('-');
        let magnitude: u64 = (-(n as i128)) as u64;
        append_number(line, magnitude);
        assert(line@ =~= before + (seq!['-'] + digits((-n) as nat)));
    } else {
        append_number(line, n as u64);
    }
}

} // verus!
