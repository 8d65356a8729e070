//! Reading the system include directories out of what the C compiler prints
//! when asked for its search list.

use crate::text::{
    chars_of, lemma_texts_of_push, string_of_range, texts_of, trim_bounds, trimmed,
};
use vstd::prelude::*;

verus! {

/// How many characters stand before the first line feed of `text`; without a
/// line feed, the length of `text`.
pub open spec fn first_newline(text: Seq<char>) -> nat
    decreases text.len(),
{
    if text.len() == 0 || text[0] == '\n' {
        0
    } else {
        1 + first_newline(text.drop_first())
    }
}

/// The lines of `text`: what stands between its line feeds. A line feed at
/// the very end opens no further line.
pub open spec fn lines_of(text: Seq<char>) -> Seq<Seq<char>>
    decreases text.len(),
{
    if text.len() == 0 {
        Seq::empty()
    } else {
        let end = first_newline(text) as int;
        if end < text.len() {
            seq![text.take(end)] + lines_of(text.skip(end + 1))
        } else {
            seq![text]
        }
    }
}

/// `lines`, each without the white space around it.
pub open spec fn trimmed_each(lines: Seq<Seq<char>>) -> Seq<Seq<char>> {
    lines.map_values(|line: Seq<char>| trimmed(line))
}

/// The lines of `text`, each without the white space around it.
pub open spec fn trimmed_lines(text: Seq<char>) -> Seq<Seq<char>> {
    trimmed_each(lines_of(text))
}

/// The line that opens the compiler's list of search directories.
pub open spec fn list_start() -> Seq<char> {
    "#include \"...\" search starts here:"@
}

/// The line that opens the second half of the list; it names no directory.
pub open spec fn list_middle() -> Seq<char> {
    "#include <...> search starts here:"@
}

/// The line that closes the list.
pub open spec fn list_end() -> Seq<char> {
    "End of search list."@
}

/// The option that hands a system include directory to the compiler.
pub open spec fn system_include_option() -> Seq<char> {
    "-isystem"@
}

/// How many lines stand before the first that equals `marker`; where none
/// does, the number of lines.
pub open spec fn position_of(lines: Seq<Seq<char>>, marker: Seq<char>) -> nat
    decreases lines.len(),
{
    if lines.len() == 0 || lines[0] == marker {
        0
    } else {
        1 + position_of(lines.drop_first(), marker)
    }
}

/// `lines` without those that equal `marker`.
pub open spec fn without(lines: Seq<Seq<char>>, marker: Seq<char>) -> Seq<Seq<char>>
    decreases lines.len(),
{
    if lines.len() == 0 {
        lines
    } else if lines.last() == marker {
        without(lines.drop_last(), marker)
    } else {
        without(lines.drop_last(), marker).push(lines.last())
    }
}

/// The lines behind the one that opens the list, up to the one that closes
/// it or, where none does, to the end. Without an opening line, none.
pub open spec fn listed_lines(lines: Seq<Seq<char>>) -> Seq<Seq<char>> {
    let start = position_of(lines, list_start()) as int;
    if start < lines.len() {
        let rest = lines.skip(start + 1);
        rest.take(position_of(rest, list_end()) as int)
    } else {
        Seq::empty()
    }
}

/// The directories that the list names.
pub open spec fn search_directories(lines: Seq<Seq<char>>) -> Seq<Seq<char>> {
    without(listed_lines(lines), list_middle())
}

/// The compiler arguments that name `directories` as system include
/// directories: before each directory the option that announces it.
pub open spec fn system_include_args(directories: Seq<Seq<char>>) -> Seq<Seq<char>>
    decreases directories.len(),
{
    if directories.len() == 0 {
        directories
    } else {
        system_include_args(directories.drop_last()).push(system_include_option()).push(
            directories.last(),
        )
    }
}

proof fn lemma_first_newline(text: Seq<char>, at: int)
    requires
        0 <= at <= text.len(),
        forall|i: int| 0 <= i < at ==> text[i] != '\n',
        at < text.len() ==> text[at] == '\n',
    ensures
        first_newline(text) == at,
    decreases at,
{
    if at > 0 {
        lemma_first_newline(text.drop_first(), at - 1);
    }
}

proof fn lemma_position_of(lines: Seq<Seq<char>>, marker: Seq<char>, at: int)
    requires
        0 <= at <= lines.len(),
        forall|i: int| 0 <= i < at ==> lines[i] != marker,
        at < lines.len() ==> lines[at] == marker,
    ensures
        position_of(lines, marker) == at,
    decreases at,
{
    if at > 0 {
        lemma_position_of(lines.drop_first(), marker, at - 1);
    }
}

proof fn lemma_next_line(lines: Seq<String>, line: String, done: Seq<Seq<char>>, raw: Seq<char>)
    requires
        texts_of(lines) == trimmed_each(done),
        line@ == trimmed(raw),
    ensures
        texts_of(lines.push(line)) == trimmed_each(done.push(raw)),
{
    let left = texts_of(lines.push(line));
    let right = trimmed_each(done.push(raw));
    assert(lines.len() == texts_of(lines).len());
    assert forall|i: int| 0 <= i < left.len() implies left[i] == right[i] by {
        if i < lines.len() {
            assert(left[i] == texts_of(lines)[i]);
        }
    }
}

/// The lines of `text`, each without the white space around it.
pub fn split_trimmed_lines(text: &str) -> (lines: Vec<String>)
    ensures
        texts_of(lines@) == trimmed_lines(text@),
{
    let chars = chars_of(text);
    let n = chars.len();
    let mut lines: Vec<String> = Vec::new();
    let mut start: usize = 0;
    let mut i: usize = 0;
    let ghost done: Seq<Seq<char>> = Seq::empty();
    assert(chars@.skip(0) == chars@);
    while i < n
        invariant
            start <= i <= n,
            n == chars@.len(),
            forall|j: int| start <= j < i ==> chars@[j] != '\n',
            texts_of(lines@) == trimmed_each(done),
            lines_of(chars@) == done + lines_of(chars@.skip(start as int)),
        decreases n - i,
    {
        if chars[i] == '\n' {
            let (from, to) = trim_bounds(&chars, start, i);
            let line = string_of_range(&chars, from, to);
            proof {
                let tail = chars@.skip(start as int);
                lemma_first_newline(tail, i - start);
                assert(tail.take(i - start) == chars@.subrange(start as int, i as int));
                assert(tail.skip(i - start + 1) == chars@.skip(i + 1));
                let raw = chars@.subrange(start as int, i as int);
                lemma_next_line(lines@, line, done, raw);
                done = done.push(raw);
            }
            lines.push(line);
            start = i + 1;
        }
        i += 1;
    }
    if start < n {
        let (from, to) = trim_bounds(&chars, start, n);
        let line = string_of_range(&chars, from, to);
        proof {
            let tail = chars@.skip(start as int);
            lemma_first_newline(tail, tail.len() as int);
            lemma_next_line(lines@, line, done, tail);
        }
        lines.push(line);
    }
    lines
}

/// The compiler arguments that name the system include directories which
/// `compiler_output` lists.
///
/// The output is read line by line, each line without the white space around
/// it. The list starts behind the line `#include "..." search starts here:`
/// and ends before the line `End of search list.`; the line
/// `#include <...> search starts here:` inside it names no directory. Each
/// directory gives two arguments: `-isystem` and the directory. An output
/// without the opening line gives no argument.
pub fn include_path_args(compiler_output: &str) -> (args: Vec<String>)
    ensures
        texts_of(args@) == system_include_args(
            search_directories(trimmed_lines(compiler_output@)),
        ),
{
    let lines = split_trimmed_lines(compiler_output);
    let ghost texts = texts_of(lines@);
    let opening = "#include \"...\" search starts here:".to_owned();
    let middle = "#include <...> search starts here:".to_owned();
    let closing = "End of search list.".to_owned();
    let n = lines.len();
    let mut args: Vec<String> = Vec::new();
    let mut i: usize = 0;
    while i < n && !(lines[i] == opening)
        invariant
            i <= n,
            n == lines@.len(),
            texts == texts_of(lines@),
            opening@ == list_start(),
            forall|j: int| 0 <= j < i ==> texts[j] != list_start(),
        decreases n - i,
    {
        i += 1;
    }
    proof {
        lemma_position_of(texts, list_start(), i as int);
    }
    if i == n {
        return args;
    }
    let first = i + 1;
    let ghost rest = texts.skip(first as int);
    let mut k: usize = first;
    while k < n && !(lines[k] == closing)
        invariant
            first <= k <= n,
            n == lines@.len(),
            texts == texts_of(lines@),
            middle@ == list_middle(),
            closing@ == list_end(),
            forall|j: int| first <= j < k ==> texts[j] != list_end(),
            texts_of(args@) == system_include_args(
                without(texts.subrange(first as int, k as int), list_middle()),
            ),
        decreases n - k,
    {
        proof {
            assert(texts.subrange(first as int, k + 1).drop_last() == texts.subrange(
                first as int,
                k as int,
            ));
        }
        if !(lines[k] == middle) {
            let option = "-isystem".to_owned();
            let directory = lines[k].clone();
            proof {
                lemma_texts_of_push(args@, option);
                lemma_texts_of_push(args@.push(option), directory);
                let found = without(texts.subrange(first as int, k + 1), list_middle());
                assert(found.drop_last() == without(
                    texts.subrange(first as int, k as int),
                    list_middle(),
                ));
            }
            args.push(option);
            args.push(directory);
        }
        k += 1;
    }
    proof {
        lemma_position_of(rest, list_end(), k - first);
        assert(rest.take(k - first) == texts.subrange(first as int, k as int));
    }
    args
}

} // verus!
