//! Canonical spacing of pointer stars in a type spelling.

use crate::text::push_char;
use vstd::prelude::*;
use vstd::std_specs::iter::IteratorSpec;

verus! {

/// `s` with one space put between every two `*` that stand side by side,
/// and nothing else changed.
pub open spec fn spaced_stars(s: Seq<char>) -> Seq<char>
    decreases s.len(),
{
    if s.len() == 0 {
        s
    } else if s.len() >= 2 && s[s.len() - 2] == '*' && s.last() == '*' {
        spaced_stars(s.drop_last()).push(' ').push('*')
    } else {
        spaced_stars(s.drop_last()).push(s.last())
    }
}

/// Whether no `*` in `s` is directly followed by another.
pub open spec fn no_adjacent_stars(s: Seq<char>) -> bool {
    forall|i: int| 0 <= i && i + 1 < s.len() ==> !(s[i] == '*' && #[trigger] s[i + 1] == '*')
}

/// Spacing the stars keeps the last character and never shortens the text.
pub proof fn lemma_spaced_stars_last(s: Seq<char>)
    requires
        s.len() > 0,
    ensures
        spaced_stars(s).len() >= s.len(),
        spaced_stars(s).last() == s.last(),
    decreases s.len(),
{
    if s.len() >= 2 {
        lemma_spaced_stars_last(s.drop_last());
    }
}

/// After spacing, no two stars stand side by side.
pub proof fn lemma_spaced_stars_separates(s: Seq<char>)
    ensures
        no_adjacent_stars(spaced_stars(s)),
    decreases s.len(),
{
    if s.len() > 0 {
        let head = s.drop_last();
        lemma_spaced_stars_separates(head);
        if head.len() > 0 {
            lemma_spaced_stars_last(head);
        }
    }
}

/// A text in which no two stars stand side by side is left as it is.
pub proof fn lemma_spaced_stars_fixed(s: Seq<char>)
    requires
        no_adjacent_stars(s),
    ensures
        spaced_stars(s) == s,
    decreases s.len(),
{
    if s.len() > 0 {
        lemma_spaced_stars_fixed(s.drop_last());
    }
}

/// Normalising twice gives what normalising once gives.
pub proof fn lemma_spaced_stars_idempotent(s: Seq<char>)
    ensures
        spaced_stars(spaced_stars(s)) == spaced_stars(s),
{
    lemma_spaced_stars_separates(s);
    lemma_spaced_stars_fixed(spaced_stars(s));
}

/// Puts one space between every two consecutive `*` of a type spelling, in
/// one pass over its characters. Nothing else is changed: no case folding,
/// no collapsing of whitespace, no reordering of qualifiers.
pub fn normalise_type(type_str: &str) -> (out: String)
    ensures
        out@ == spaced_stars(type_str@),
        no_adjacent_stars(out@),
        spaced_stars(out@) == out@,
{
    let mut out = String::new();
    let mut after_star = false;
    let ghost seen: Seq<char> = Seq::empty();
    let mut rest = type_str.chars();
    for c in it: rest
        invariant
            seen == it.history(),
            out@ == spaced_stars(seen),
            after_star == (seen.len() > 0 && seen.last() == '*'),
    {
        proof {
            assert(seen.push(c).drop_last() == seen);
            seen = seen.push(c);
        }
        if after_star && c == '*' {
            push_char(&mut out, ' ');
        }
        push_char(&mut out, c);
        after_star = c == '*';
    }
    assert(seen == type_str@);
    proof {
        lemma_spaced_stars_idempotent(type_str@);
        lemma_spaced_stars_separates(type_str@);
    }
    out
}

} // verus!
