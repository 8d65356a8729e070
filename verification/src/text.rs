//! Text as sequences of characters: taking strings apart and putting them
//! together, joining, decimal numbers, and white space.

use vstd::prelude::*;
use vstd::std_specs::iter::IteratorSpec;

verus! {

/// The characters of `s`, in order.
pub fn chars_of(s: &str) -> (out: Vec<char>)
    ensures
        out@ == s@,
{
    let mut out: Vec<char> = Vec::new();
    let mut rest = s.chars();
    for c in it: rest
        invariant
            out@ == it.history(),
    {
        out.push(c);
    }
    out
}

/// Appends one character to a string.
///
/// Wraps `String::push`, which appends the given character to the end of the
/// string and touches nothing before it.
#[verifier::external_body]
pub(crate) fn push_char(s: &mut String, c: char)
    ensures
        final(s)@ == old(s)@.push(c),
{
    s.push(c)
}

/// The texts of `strings`, in order.
pub open spec fn texts_of(strings: Seq<String>) -> Seq<Seq<char>> {
    strings.map_values(|s: String| s@)
}

/// The texts of a list that has grown by one string.
pub proof fn lemma_texts_of_push(strings: Seq<String>, last: String)
    ensures
        texts_of(strings.push(last)) == texts_of(strings).push(last@),
{
}

/// `parts` written one after another with `separator` between each two.
pub open spec fn join_with(parts: Seq<Seq<char>>, separator: Seq<char>) -> Seq<char>
    decreases parts.len(),
{
    if parts.len() == 0 {
        Seq::empty()
    } else if parts.len() == 1 {
        parts[0]
    } else {
        join_with(parts.drop_last(), separator) + separator + parts.last()
    }
}

/// What `join_with` gives for the first `i + 1` parts, from what it gives for
/// the first `i`.
pub proof fn lemma_join_with_step(parts: Seq<Seq<char>>, separator: Seq<char>, i: int)
    requires
        0 <= i < parts.len(),
    ensures
        join_with(parts.take(i + 1), separator) == if i == 0 {
            parts[0]
        } else {
            join_with(parts.take(i), separator) + separator + parts[i]
        },
{
    assert(parts.take(i + 1).drop_last() == parts.take(i));
}

/// The character that stands for a digit below ten.
pub open spec fn digit_char(digit: nat) -> char {
    (0x30 + digit) as char
}

/// `n` written in decimal, without sign or leading zeros.
pub open spec fn decimal(n: nat) -> Seq<char>
    decreases n,
{
    if n < 10 {
        seq![digit_char(n)]
    } else {
        decimal(n / 10).push(digit_char(n % 10))
    }
}

/// Appends `n` in decimal to `out`.
pub fn push_decimal(out: &mut String, n: u32)
    ensures
        final(out)@ == old(out)@ + decimal(n as nat),
    decreases n,
{
    if n >= 10 {
        push_decimal(out, n / 10);
    }
    let digit: u8 = (n % 10) as u8;
    push_char(out, (0x30u8 + digit) as char);
}

/// Whether `c` is white space as Unicode defines it: the characters with
/// the property `White_Space`.
pub open spec fn is_whitespace(c: char) -> bool {
    let code = c as int;
    ||| 0x09 <= code <= 0x0d
    ||| code == 0x20
    ||| code == 0x85
    ||| code == 0xa0
    ||| code == 0x1680
    ||| 0x2000 <= code <= 0x200a
    ||| code == 0x2028
    ||| code == 0x2029
    ||| code == 0x202f
    ||| code == 0x205f
    ||| code == 0x3000
}

/// `s` without the white space it starts with.
pub open spec fn skip_leading_whitespace(s: Seq<char>) -> Seq<char>
    decreases s.len(),
{
    if s.len() > 0 && is_whitespace(s[0]) {
        skip_leading_whitespace(s.drop_first())
    } else {
        s
    }
}

/// `s` without the white space it ends with.
pub open spec fn skip_trailing_whitespace(s: Seq<char>) -> Seq<char>
    decreases s.len(),
{
    if s.len() > 0 && is_whitespace(s.last()) {
        skip_trailing_whitespace(s.drop_last())
    } else {
        s
    }
}

/// `s` without the white space around it. White space inside stays.
pub open spec fn trimmed(s: Seq<char>) -> Seq<char> {
    skip_trailing_whitespace(skip_leading_whitespace(s))
}

/// Whether `s` neither starts nor ends with white space.
pub open spec fn has_bare_ends(s: Seq<char>) -> bool {
    s.len() > 0 ==> !is_whitespace(s[0]) && !is_whitespace(s.last())
}

proof fn lemma_skip_leading_whitespace(s: Seq<char>)
    ensures
        skip_leading_whitespace(s).len() > 0 ==> !is_whitespace(skip_leading_whitespace(s)[0]),
    decreases s.len(),
{
    if s.len() > 0 && is_whitespace(s[0]) {
        lemma_skip_leading_whitespace(s.drop_first());
    }
}

proof fn lemma_skip_trailing_whitespace(s: Seq<char>)
    ensures
        skip_trailing_whitespace(s).len() <= s.len(),
        skip_trailing_whitespace(s) == s.take(skip_trailing_whitespace(s).len() as int),
        skip_trailing_whitespace(s).len() > 0 ==> !is_whitespace(skip_trailing_whitespace(s).last()),
    decreases s.len(),
{
    if s.len() > 0 && is_whitespace(s.last()) {
        let head = s.drop_last();
        lemma_skip_trailing_whitespace(head);
        let kept = skip_trailing_whitespace(head).len() as int;
        assert(head.take(kept) == s.take(kept));
    } else {
        assert(s.take(s.len() as int) == s);
    }
}

/// A trimmed text neither starts nor ends with white space.
pub proof fn lemma_trimmed_has_bare_ends(s: Seq<char>)
    ensures
        has_bare_ends(trimmed(s)),
{
    lemma_skip_leading_whitespace(s);
    lemma_skip_trailing_whitespace(skip_leading_whitespace(s));
}

/// Whether `c` is white space.
pub fn is_whitespace_char(c: char) -> (white: bool)
    ensures
        white == is_whitespace(c),
{
    let code: u32 = c as u32;
    (0x09 <= code && code <= 0x0d) || code == 0x20 || code == 0x85 || code == 0xa0 || code
        == 0x1680 || (0x2000 <= code && code <= 0x200a) || code == 0x2028 || code == 0x2029
        || code == 0x202f || code == 0x205f || code == 0x3000
}

/// The characters of `chars` from position `from` up to, not including,
/// position `to`, as a string.
pub fn string_of_range(chars: &Vec<char>, from: usize, to: usize) -> (out: String)
    requires
        from <= to <= chars@.len(),
    ensures
        out@ == chars@.subrange(from as int, to as int),
{
    let mut out = String::new();
    let mut i: usize = from;
    while i < to
        invariant
            from <= i <= to,
            to <= chars@.len(),
            out@ == chars@.subrange(from as int, i as int),
        decreases to - i,
    {
        push_char(&mut out, chars[i]);
        i += 1;
    }
    out
}

/// Where, within the characters of `chars` from `from` up to `to`, the text
/// without surrounding white space starts and ends.
pub fn trim_bounds(chars: &Vec<char>, from: usize, to: usize) -> (bounds: (usize, usize))
    requires
        from <= to <= chars@.len(),
    ensures
        from <= bounds.0 <= bounds.1 <= to,
        chars@.subrange(bounds.0 as int, bounds.1 as int) == trimmed(
            chars@.subrange(from as int, to as int),
        ),
{
    let ghost whole = chars@.subrange(from as int, to as int);
    let mut start: usize = from;
    assert(whole.skip(0) == whole);
    while start < to && is_whitespace_char(chars[start])
        invariant
            from <= start <= to,
            to <= chars@.len(),
            whole == chars@.subrange(from as int, to as int),
            skip_leading_whitespace(whole) == skip_leading_whitespace(whole.skip(start - from)),
        decreases to - start,
    {
        assert(whole.skip(start - from).drop_first() == whole.skip(start - from + 1));
        start += 1;
    }
    let ghost rest = whole.skip(start - from);
    let mut end: usize = to;
    assert(chars@.subrange(start as int, to as int) == rest);
    while end > start && is_whitespace_char(chars[end - 1])
        invariant
            start <= end <= to,
            to <= chars@.len(),
            skip_trailing_whitespace(rest) == skip_trailing_whitespace(
                chars@.subrange(start as int, end as int),
            ),
        decreases end,
    {
        assert(chars@.subrange(start as int, end as int).drop_last() == chars@.subrange(
            start as int,
            end - 1,
        ));
        end -= 1;
    }
    (start, end)
}

/// `s` without the white space around it.
pub fn trim(s: &str) -> (out: String)
    ensures
        out@ == trimmed(s@),
        has_bare_ends(out@),
{
    proof {
        lemma_trimmed_has_bare_ends(s@);
    }
    let chars = chars_of(s);
    let (start, end) = trim_bounds(&chars, 0, chars.len());
    assert(chars@.subrange(0, chars@.len() as int) == chars@);
    string_of_range(&chars, start, end)
}

} // verus!
