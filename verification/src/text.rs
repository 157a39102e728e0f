//! Character-level helpers for the record format: whitespace, trimming,
//! splitting on a delimiter, ASCII case folding and decimal numerals.
//!
//! Strings are modelled by their sequence of characters. The executable
//! functions work on a `Vec<char>` and on half-open index ranges into it, so
//! that no text is copied before it is needed.

use vstd::prelude::*;
use vstd::string::*;

verus! {

/// The characters that carry the Unicode `White_Space` property.
pub open spec fn is_whitespace(c: char) -> bool {
    let n = c as u32;
    ||| 0x09 <= n <= 0x0D
    ||| n == 0x20
    ||| n == 0x85
    ||| n == 0xA0
    ||| n == 0x1680
    ||| 0x2000 <= n <= 0x200A
    ||| n == 0x2028
    ||| n == 0x2029
    ||| n == 0x202F
    ||| n == 0x205F
    ||| n == 0x3000
}

/// `s` without its leading whitespace.
pub open spec fn trim_start(s: Seq<char>) -> Seq<char>
    decreases s.len(),
{
    if s.len() > 0 && is_whitespace(s.first()) {
        trim_start(s.drop_first())
    } else {
        s
    }
}

/// `s` without its trailing whitespace.
pub open spec fn trim_end(s: Seq<char>) -> Seq<char>
    decreases s.len(),
{
    if s.len() > 0 && is_whitespace(s.last()) {
        trim_end(s.drop_last())
    } else {
        s
    }
}

/// `s` without its leading and trailing whitespace.
pub open spec fn trim(s: Seq<char>) -> Seq<char> {
    trim_end(trim_start(s))
}

/// The fields of `s` when `sep` separates them. There is always at least one
/// field; a separator at either end, or two in a row, gives an empty field.
pub open spec fn split(s: Seq<char>, sep: char) -> Seq<Seq<char>>
    decreases s.len(),
{
    if s.len() == 0 {
        seq![Seq::<char>::empty()]
    } else {
        let before = split(s.drop_last(), sep);
        if s.last() == sep {
            before.push(Seq::<char>::empty())
        } else {
            before.update(before.len() - 1, before.last().push(s.last()))
        }
    }
}

/// `fields` written one after the other with `sep` between neighbours.
pub open spec fn join(fields: Seq<Seq<char>>, sep: char) -> Seq<char>
    decreases fields.len(),
{
    if fields.len() == 0 {
        Seq::<char>::empty()
    } else if fields.len() == 1 {
        fields[0]
    } else {
        join(fields.drop_last(), sep).push(sep) + fields.last()
    }
}

/// The code point of `c`, with the upper-case ASCII letters moved onto the
/// lower-case ones.
pub open spec fn fold_ascii_case(c: char) -> u32 {
    let n = c as u32;
    if 0x41 <= n <= 0x5A {
        (n + 0x20) as u32
    } else {
        n
    }
}

/// Equality of two strings up to the case of their ASCII letters.
pub open spec fn eq_ignore_ascii_case(a: Seq<char>, b: Seq<char>) -> bool {
    &&& a.len() == b.len()
    &&& forall|i: int| 0 <= i < a.len() ==> fold_ascii_case(#[trigger] a[i]) == fold_ascii_case(b[i])
}

/// The character of the decimal digit `d`.
pub open spec fn digit_char(d: nat) -> char {
    (0x30 + d) as char
}

/// The decimal numeral of `n`, without leading zeros.
pub open spec fn decimal(n: nat) -> Seq<char>
    decreases n,
{
    if n < 10 {
        seq![digit_char(n)]
    } else {
        decimal(n / 10).push(digit_char(n % 10))
    }
}

/// What formatting a string slice with `{:?}` writes for the text `s`: the
/// text between double quotes, with quotes, backslashes and the characters
/// that do not print written as escapes.
pub uninterp spec fn debug_quoted(s: Seq<char>) -> Seq<char>;

/// Formats `s` with `{:?}`, that is with `<str as Debug>::fmt` of the standard
/// library. The contract gives the result its name and claims nothing about
/// what the escapes look like.
#[verifier::external_body]
pub(crate) fn debug_quote(s: &str) -> (r: String)
    ensures
        r@ == debug_quoted(s@),
{
    format!("{:?}", s)
}

/// Tells whether `c` is a whitespace character.
pub fn is_whitespace_char(c: char) -> (r: bool)
    ensures
        r == is_whitespace(c),
{
    let n: u32 = c as u32;
    (0x09 <= n && n <= 0x0D) || n == 0x20 || n == 0x85 || n == 0xA0 || n == 0x1680 || (0x2000 <= n
        && n <= 0x200A) || n == 0x2028 || n == 0x2029 || n == 0x202F || n == 0x205F || n == 0x3000
}

/// The characters of a string, in order.
pub fn chars_of(s: &str) -> (v: Vec<char>)
    ensures
        v@ == s@,
{
    let mut v: Vec<char> = Vec::new();
    for c in it: s.chars()
        invariant
            v@ == it.seq().take(it.index() as int),
    {
        v.push(c);
    }
    v
}

/// Narrows the range `from..to` of `chars` to what `trim` keeps of it.
pub fn trim_range(chars: &Vec<char>, from: usize, to: usize) -> (r: (usize, usize))
    requires
        from <= to <= chars.len(),
    ensures
        from <= r.0 <= r.1 <= to,
        chars@.subrange(r.0 as int, r.1 as int) == trim(chars@.subrange(from as int, to as int)),
{
    let mut a: usize = from;
    while a < to && is_whitespace_char(chars[a])
        invariant
            from <= a <= to <= chars.len(),
            trim_start(chars@.subrange(from as int, to as int)) == trim_start(
                chars@.subrange(a as int, to as int),
            ),
        decreases to - a,
    {
        assert(chars@.subrange(a as int, to as int).drop_first() == chars@.subrange(
            a + 1,
            to as int,
        ));
        a += 1;
    }
    let mut b: usize = to;
    while a < b && is_whitespace_char(chars[b - 1])
        invariant
            a <= b <= to <= chars.len(),
            trim_end(chars@.subrange(a as int, to as int)) == trim_end(
                chars@.subrange(a as int, b as int),
            ),
        decreases b - a,
    {
        assert(chars@.subrange(a as int, b as int).drop_last() == chars@.subrange(
            a as int,
            b - 1,
        ));
        b -= 1;
    }
    (a, b)
}

/// Finds the fields of `chars` when `sep` separates them, each as a
/// half-open range of indices.
pub fn split_ranges(chars: &Vec<char>, sep: char) -> (ranges: Vec<(usize, usize)>)
    ensures
        ranges.len() == split(chars@, sep).len(),
        forall|k: int|
            0 <= k < ranges.len() ==> {
                &&& (#[trigger] ranges[k]).0 <= ranges[k].1 <= chars.len()
                &&& chars@.subrange(ranges[k].0 as int, ranges[k].1 as int) == split(chars@, sep)[k]
            },
{
    let mut ranges: Vec<(usize, usize)> = Vec::new();
    let mut start: usize = 0;
    let mut i: usize = 0;
    while i < chars.len()
        invariant
            start <= i <= chars.len(),
            split(chars@.take(i as int), sep).len() == ranges.len() + 1,
            split(chars@.take(i as int), sep).last() == chars@.subrange(start as int, i as int),
            forall|k: int|
                0 <= k < ranges.len() ==> {
                    &&& (#[trigger] ranges[k]).0 <= ranges[k].1 <= chars.len()
                    &&& chars@.subrange(ranges[k].0 as int, ranges[k].1 as int) == split(
                        chars@.take(i as int),
                        sep,
                    )[k]
                },
        decreases chars.len() - i,
    {
        assert(chars@.take(i + 1).drop_last() == chars@.take(i as int));
        if chars[i] == sep {
            ranges.push((start, i));
            start = i + 1;
        }
        i += 1;
    }
    assert(chars@.take(i as int) == chars@);
    ranges.push((start, i));
    ranges
}

/// The code point of `c` after ASCII case folding.
pub fn folded(c: char) -> (r: u32)
    ensures
        r == fold_ascii_case(c),
{
    let n: u32 = c as u32;
    if 0x41 <= n && n <= 0x5A {
        n + 0x20
    } else {
        n
    }
}

/// Compares the range `from..to` of `chars` with `word`, ignoring the case of
/// ASCII letters.
pub fn range_eq_ignore_ascii_case(chars: &Vec<char>, from: usize, to: usize, word: &str) -> (r:
    bool)
    requires
        from <= to <= chars.len(),
    ensures
        r == eq_ignore_ascii_case(chars@.subrange(from as int, to as int), word@),
{
    let letters = chars_of(word);
    if letters.len() != to - from {
        return false;
    }
    let ghost token = chars@.subrange(from as int, to as int);
    let mut i: usize = 0;
    while i < letters.len()
        invariant
            from <= to <= chars.len(),
            letters.len() == to - from,
            letters@ == word@,
            token == chars@.subrange(from as int, to as int),
            i <= letters.len(),
            forall|j: int| 0 <= j < i ==> fold_ascii_case(#[trigger] token[j]) == fold_ascii_case(word@[j]),
        decreases letters.len() - i,
    {
        if folded(chars[from + i]) != folded(letters[i]) {
            assert(token[i as int] == chars@[from + i]);
            return false;
        }
        i += 1;
    }
    true
}

/// The one-character string of the decimal digit `d`.
fn digit_str(d: usize) -> (r: &'static str)
    requires
        d < 10,
    ensures
        r@ == seq![digit_char(d as nat)],
{
    proof {
        reveal_strlit("0");
        reveal_strlit("1");
        reveal_strlit("2");
        reveal_strlit("3");
        reveal_strlit("4");
        reveal_strlit("5");
        reveal_strlit("6");
        reveal_strlit("7");
        reveal_strlit("8");
        reveal_strlit("9");
    }
    if d == 0 {
        "0"
    } else if d == 1 {
        "1"
    } else if d == 2 {
        "2"
    } else if d == 3 {
        "3"
    } else if d == 4 {
        "4"
    } else if d == 5 {
        "5"
    } else if d == 6 {
        "6"
    } else if d == 7 {
        "7"
    } else if d == 8 {
        "8"
    } else {
        "9"
    }
}

/// Writes `n` in decimal.
pub fn decimal_string(n: usize) -> (r: String)
    ensures
        r@ == decimal(n as nat),
    decreases n,
{
    if n < 10 {
        String::from_str(digit_str(n))
    } else {
        let mut r = decimal_string(n / 10);
        r.append(digit_str(n % 10));
        r
    }
}

/// Splitting loses nothing and cuts at every separator: there is at least
/// one field, no field holds the separator, and the fields joined by the
/// separator give the text back.
pub proof fn lemma_split_cuts_at_every_separator(s: Seq<char>, sep: char)
    ensures
        split(s, sep).len() >= 1,
        forall|k: int| 0 <= k < split(s, sep).len() ==> !(#[trigger] split(s, sep)[k]).contains(sep),
        join(split(s, sep), sep) == s,
    decreases s.len(),
{
    if s.len() > 0 {
        let fields = split(s, sep);
        let front = s.drop_last();
        let before = split(front, sep);
        lemma_split_cuts_at_every_separator(front, sep);
        assert(s == front.push(s.last()));
        if s.last() == sep {
            assert(fields.drop_last() == before);
        } else {
            let last = before.last().push(s.last());
            assert(!last.contains(sep)) by {
                if last.contains(sep) {
                    let i = choose|i: int| 0 <= i < last.len() && last[i] == sep;
                    assert(before.last()[i] == sep);
                }
            }
            if before.len() > 1 {
                assert(fields.drop_last() == before.drop_last());
            }
        }
    }
}

/// Whitespace has no case: a character that folds onto the same code as a
/// whitespace character is that character.
proof fn lemma_whitespace_has_no_case(a: char, b: char)
    requires
        fold_ascii_case(a) == fold_ascii_case(b),
    ensures
        is_whitespace(a) == is_whitespace(b),
{
}

/// Two texts that are equal up to case are trimmed at the same places, so
/// what is left of them is equal up to case.
pub proof fn lemma_trim_ignores_case(a: Seq<char>, b: Seq<char>)
    requires
        eq_ignore_ascii_case(a, b),
    ensures
        eq_ignore_ascii_case(trim(a), trim(b)),
{
    lemma_trim_start_ignores_case(a, b);
    lemma_trim_end_ignores_case(trim_start(a), trim_start(b));
}

proof fn lemma_trim_start_ignores_case(a: Seq<char>, b: Seq<char>)
    requires
        eq_ignore_ascii_case(a, b),
    ensures
        eq_ignore_ascii_case(trim_start(a), trim_start(b)),
    decreases a.len(),
{
    if a.len() > 0 {
        lemma_whitespace_has_no_case(a[0], b[0]);
        if is_whitespace(a.first()) {
            assert forall|i: int| 0 <= i < a.drop_first().len() implies fold_ascii_case(
                #[trigger] a.drop_first()[i],
            ) == fold_ascii_case(b.drop_first()[i]) by {
                assert(a.drop_first()[i] == a[i + 1]);
            }
            lemma_trim_start_ignores_case(a.drop_first(), b.drop_first());
        }
    }
}

proof fn lemma_trim_end_ignores_case(a: Seq<char>, b: Seq<char>)
    requires
        eq_ignore_ascii_case(a, b),
    ensures
        eq_ignore_ascii_case(trim_end(a), trim_end(b)),
    decreases a.len(),
{
    if a.len() > 0 {
        lemma_whitespace_has_no_case(a[a.len() - 1], b[b.len() - 1]);
        if is_whitespace(a.last()) {
            assert forall|i: int| 0 <= i < a.drop_last().len() implies fold_ascii_case(
                #[trigger] a.drop_last()[i],
            ) == fold_ascii_case(b.drop_last()[i]) by {
                assert(a.drop_last()[i] == a[i]);
            }
            lemma_trim_end_ignores_case(a.drop_last(), b.drop_last());
        }
    }
}

/// Equality up to case carries over: two texts that are equal up to case
/// are equal up to case to the same words.
pub proof fn lemma_eq_ignore_ascii_case_carries(a: Seq<char>, b: Seq<char>, word: Seq<char>)
    requires
        eq_ignore_ascii_case(a, b),
    ensures
        eq_ignore_ascii_case(a, word) == eq_ignore_ascii_case(b, word),
{
    if eq_ignore_ascii_case(a, word) {
        assert forall|i: int| 0 <= i < b.len() implies fold_ascii_case(#[trigger] b[i])
            == fold_ascii_case(word[i]) by {
            assert(fold_ascii_case(a[i]) == fold_ascii_case(b[i]));
        }
    }
    if eq_ignore_ascii_case(b, word) {
        assert forall|i: int| 0 <= i < a.len() implies fold_ascii_case(#[trigger] a[i])
            == fold_ascii_case(word[i]) by {
            assert(fold_ascii_case(b[i]) == fold_ascii_case(word[i]));
        }
    }
}

} // verus!
