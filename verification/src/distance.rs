//! Case-insensitive Levenshtein distance between two strings.

use crate::text::chars_of;
use vstd::prelude::*;

verus! {

/// The code point that `c` is compared by: an ASCII capital counts as its
/// small letter, every other character as itself.
pub open spec fn fold_ascii(c: char) -> int {
    if 0x41 <= c as int <= 0x5a {
        c as int + 0x20
    } else {
        c as int
    }
}

/// Whether two characters are the same once ASCII case is ignored.
pub open spec fn same_letter(x: char, y: char) -> bool {
    fold_ascii(x) == fold_ascii(y)
}

/// What it costs to put `y` in the place of `x`.
pub open spec fn substitution_cost(x: char, y: char) -> nat {
    if same_letter(x, y) {
        0
    } else {
        1
    }
}

/// The least of three numbers.
pub open spec fn min3(x: nat, y: nat, z: nat) -> nat {
    if x <= y && x <= z {
        x
    } else if y <= z {
        y
    } else {
        z
    }
}

/// The greater of two numbers.
pub open spec fn max2(x: nat, y: nat) -> nat {
    if x >= y {
        x
    } else {
        y
    }
}

/// The Levenshtein distance between `a` and `b`: the least number of
/// insertions, deletions and substitutions of one character, each at cost 1,
/// that turn `a` into `b`, where characters that differ only in ASCII case
/// are taken to be equal.
pub open spec fn edit_distance(a: Seq<char>, b: Seq<char>) -> nat
    decreases a.len() + b.len(),
{
    if a.len() == 0 {
        b.len()
    } else if b.len() == 0 {
        a.len()
    } else {
        min3(
            edit_distance(a.drop_last(), b) + 1,
            edit_distance(a, b.drop_last()) + 1,
            edit_distance(a.drop_last(), b.drop_last()) + substitution_cost(a.last(), b.last()),
        )
    }
}

/// The distance never exceeds the length of the longer string.
pub proof fn lemma_distance_upper_bound(a: Seq<char>, b: Seq<char>)
    ensures
        edit_distance(a, b) <= max2(a.len(), b.len()),
    decreases a.len() + b.len(),
{
    if a.len() > 0 && b.len() > 0 {
        lemma_distance_upper_bound(a.drop_last(), b.drop_last());
    }
}

/// The distance is at least the difference of the two lengths.
pub proof fn lemma_distance_lower_bound(a: Seq<char>, b: Seq<char>)
    ensures
        a.len() <= edit_distance(a, b) + b.len(),
        b.len() <= edit_distance(a, b) + a.len(),
    decreases a.len() + b.len(),
{
    if a.len() > 0 && b.len() > 0 {
        lemma_distance_lower_bound(a.drop_last(), b);
        lemma_distance_lower_bound(a, b.drop_last());
        lemma_distance_lower_bound(a.drop_last(), b.drop_last());
    }
}

/// The distance does not depend on the order of its arguments.
pub proof fn lemma_distance_symmetric(a: Seq<char>, b: Seq<char>)
    ensures
        edit_distance(a, b) == edit_distance(b, a),
    decreases a.len() + b.len(),
{
    if a.len() > 0 && b.len() > 0 {
        lemma_distance_symmetric(a.drop_last(), b);
        lemma_distance_symmetric(a, b.drop_last());
        lemma_distance_symmetric(a.drop_last(), b.drop_last());
    }
}

/// Two strings of one length whose characters agree place by place, ASCII
/// case ignored, are at distance 0.
pub proof fn lemma_distance_ignores_case(a: Seq<char>, b: Seq<char>)
    requires
        a.len() == b.len(),
        forall|i: int| 0 <= i < a.len() ==> same_letter(a[i], b[i]),
    ensures
        edit_distance(a, b) == 0,
    decreases a.len(),
{
    if a.len() > 0 {
        lemma_distance_ignores_case(a.drop_last(), b.drop_last());
    }
}

/// A string is at distance 0 from itself.
pub proof fn lemma_distance_identity(a: Seq<char>)
    ensures
        edit_distance(a, a) == 0,
{
    lemma_distance_ignores_case(a, a);
}

/// Only strings that agree place by place, ASCII case ignored, are at
/// distance 0.
pub proof fn lemma_distance_zero(a: Seq<char>, b: Seq<char>)
    requires
        edit_distance(a, b) == 0,
    ensures
        a.len() == b.len(),
        forall|i: int| 0 <= i < a.len() ==> same_letter(a[i], b[i]),
    decreases a.len() + b.len(),
{
    lemma_distance_lower_bound(a, b);
    if a.len() > 0 && b.len() > 0 {
        lemma_distance_zero(a.drop_last(), b.drop_last());
        assert forall|i: int| 0 <= i < a.len() implies same_letter(a[i], b[i]) by {
            if i < a.len() - 1 {
                assert(a[i] == a.drop_last()[i]);
            }
        }
    }
}

/// Going from `a` to `c` by way of `b` is never shorter than going directly.
pub proof fn lemma_distance_triangle(a: Seq<char>, b: Seq<char>, c: Seq<char>)
    ensures
        edit_distance(a, c) <= edit_distance(a, b) + edit_distance(b, c),
    decreases a.len() + b.len() + c.len(),
{
    if a.len() == 0 {
        lemma_distance_lower_bound(b, c);
    } else if c.len() == 0 {
        lemma_distance_lower_bound(a, b);
    } else if b.len() == 0 {
        lemma_distance_upper_bound(a, c);
    } else {
        let a1 = a.drop_last();
        let b1 = b.drop_last();
        let c1 = c.drop_last();
        let ab = edit_distance(a, b);
        let bc = edit_distance(b, c);
        if ab == edit_distance(a1, b) + 1 {
            lemma_distance_triangle(a1, b, c);
        } else if bc == edit_distance(b, c1) + 1 {
            lemma_distance_triangle(a, b, c1);
        } else if ab == edit_distance(a, b1) + 1 {
            if bc == edit_distance(b1, c) + 1 {
                lemma_distance_triangle(a, b1, c);
            } else {
                lemma_distance_triangle(a, b1, c1);
            }
        } else {
            if bc == edit_distance(b1, c) + 1 {
                lemma_distance_triangle(a1, b1, c);
            } else {
                lemma_distance_triangle(a1, b1, c1);
            }
        }
    }
}

/// The distance between the first `i` characters of `a` and the first `j`
/// characters of `b`: the cell in row `i` and column `j` of the table.
pub open spec fn prefix_distance(a: Seq<char>, b: Seq<char>, i: int, j: int) -> nat {
    edit_distance(a.take(i), b.take(j))
}

/// How a cell of the table follows from its three neighbours.
proof fn lemma_prefix_distance_step(a: Seq<char>, b: Seq<char>, i: int, j: int)
    requires
        0 <= i < a.len(),
        0 <= j < b.len(),
    ensures
        prefix_distance(a, b, i + 1, j + 1) == min3(
            prefix_distance(a, b, i, j + 1) + 1,
            prefix_distance(a, b, i + 1, j) + 1,
            prefix_distance(a, b, i, j) + substitution_cost(a[i], b[j]),
        ),
        prefix_distance(a, b, i, j) <= max2(i as nat, j as nat),
        prefix_distance(a, b, i + 1, j + 1) <= max2((i + 1) as nat, (j + 1) as nat),
{
    assert(a.take(i + 1).drop_last() == a.take(i));
    assert(b.take(j + 1).drop_last() == b.take(j));
    lemma_distance_upper_bound(a.take(i), b.take(j));
    lemma_distance_upper_bound(a.take(i + 1), b.take(j + 1));
}

fn fold_letter(c: char) -> (code: u32)
    ensures
        code == fold_ascii(c),
{
    let code: u32 = c as u32;
    if 0x41 <= code && code <= 0x5a {
        code + 0x20
    } else {
        code
    }
}

/// Computes the case-insensitive Levenshtein distance between `a` and `b`,
/// one row of the table at a time.
pub fn levenshtein_distance(a: &str, b: &str) -> (distance: usize)
    ensures
        distance == edit_distance(a@, b@),
{
    let left_chars = chars_of(a);
    let top_chars = chars_of(b);
    let n = left_chars.len();
    let m = top_chars.len();
    if m == 0 {
        return n;
    }
    // `row[j]` holds the cell in column `j + 1` of the row last completed;
    // column 0 of row `i` is `i` and is not stored.
    let mut row: Vec<usize> = Vec::new();
    let mut j: usize = 0;
    while j < m
        invariant
            j <= m,
            m == b@.len(),
            row@.len() == j,
            forall|k: int| 0 <= k < j ==> row@[k] == prefix_distance(a@, b@, 0, k + 1),
        decreases m - j,
    {
        row.push(j + 1);
        j += 1;
    }
    let mut i: usize = 0;
    while i < n
        invariant
            i <= n,
            n == a@.len(),
            m == b@.len(),
            m > 0,
            left_chars@ == a@,
            top_chars@ == b@,
            row@.len() == m,
            forall|k: int| 0 <= k < m ==> row@[k] == prefix_distance(a@, b@, i as int, k + 1),
        decreases n - i,
    {
        let mut next: Vec<usize> = Vec::new();
        let mut left: usize = i + 1;
        let mut diagonal: usize = i;
        let mut j: usize = 0;
        while j < m
            invariant
                j <= m,
                i < n,
                n == a@.len(),
                m == b@.len(),
                left_chars@ == a@,
                top_chars@ == b@,
                row@.len() == m,
                forall|k: int| 0 <= k < m ==> row@[k] == prefix_distance(a@, b@, i as int, k + 1),
                next@.len() == j,
                forall|k: int| 0 <= k < j ==> next@[k] == prefix_distance(a@, b@, i + 1, k + 1),
                left == prefix_distance(a@, b@, i + 1, j as int),
                diagonal == prefix_distance(a@, b@, i as int, j as int),
            decreases m - j,
        {
            proof {
                lemma_prefix_distance_step(a@, b@, i as int, j as int);
            }
            let up = row[j];
            let edge = if up < left { up } else { left };
            let matched = fold_letter(left_chars[i]) == fold_letter(top_chars[j]);
            let through = if matched { diagonal } else { diagonal + 1 };
            let cell = if edge < through { edge + 1 } else { through };
            next.push(cell);
            diagonal = up;
            left = cell;
            j += 1;
        }
        row = next;
        i += 1;
    }
    assert(a@.take(n as int) == a@);
    assert(b@.take(m as int) == b@);
    row[m - 1]
}

} // verus!
