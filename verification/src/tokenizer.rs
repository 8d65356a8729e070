//! The C tokenizer behind signature queries: libclang, through the `clang`
//! crate.
//!
//! A query's signature part is handed to libclang as the contents of an
//! unsaved file, lexed as C, and read back as the spellings of its tokens.
//! What libclang makes of a text is not specified here: every function of
//! the `clang` crate is called through a wrapper that promises nothing of
//! its result, and the code around the calls is verified for whatever they
//! return.

use crate::query::{
    name_fragment, nonempty, nonempty_text, signature_part, split_query, text_view, Query,
    QueryError, SignatureTokenizer,
};
use crate::text::{join_with, lemma_join_with_step, texts_of};
use vstd::prelude::*;
use vstd::std_specs::iter::IteratorSpec;
use vstd::string::StringExecFns;
use vstd::utf8::encode_utf8;

verus! {

/// `clang::Index`, the handle on libclang that translation units are made
/// with. Nothing of its state is modelled.
#[verifier::external_type_specification]
#[verifier::external_body]
pub struct ExIndex<'c>(clang::Index<'c>);

/// `clang::Parser`, the builder of a translation unit. Nothing of its state
/// is modelled.
#[verifier::external_type_specification]
#[verifier::external_body]
pub struct ExParser<'tu>(clang::Parser<'tu>);

/// `clang::TranslationUnit`, a source file as libclang parsed it. Nothing of
/// its contents is modelled.
#[verifier::external_type_specification]
#[verifier::external_body]
pub struct ExTranslationUnit<'i>(clang::TranslationUnit<'i>);

/// `clang::Unsaved`, the contents of a file that exists in memory only.
#[verifier::external_type_specification]
#[verifier::external_body]
pub struct ExUnsaved(clang::Unsaved);

/// `clang::SourceError`, the reason why libclang gave no translation unit.
#[verifier::external_type_specification]
#[verifier::external_body]
pub struct ExSourceError(clang::SourceError);

/// `clang::source::File`, a file within a translation unit.
#[verifier::external_type_specification]
#[verifier::external_body]
pub struct ExFile<'tu>(clang::source::File<'tu>);

/// `clang::source::SourceLocation`, a place in a file.
#[verifier::external_type_specification]
#[verifier::external_body]
pub struct ExSourceLocation<'tu>(clang::source::SourceLocation<'tu>);

/// `clang::source::SourceRange`, a stretch of a file.
#[verifier::external_type_specification]
#[verifier::external_body]
pub struct ExSourceRange<'tu>(clang::source::SourceRange<'tu>);

/// `clang::token::Token`, one lexed piece of a file.
#[verifier::external_type_specification]
#[verifier::external_body]
pub struct ExToken<'tu>(clang::token::Token<'tu>);

/// Whether `text` can be written as a C string: it holds no NUL character.
pub open spec fn is_c_text(text: Seq<char>) -> bool {
    !text.contains('\0')
}

/// Wraps `clang::Unsaved::new`: an unsaved file with the given path and
/// contents. The crate turns both into C strings and panics on a NUL, so
/// neither may hold one. Nothing is claimed of the result.
#[verifier::external_body]
fn unsaved_file(path: &str, contents: &str) -> (file: clang::Unsaved)
    requires
        is_c_text(path@),
        is_c_text(contents@),
{
    clang::Unsaved::new(path, contents)
}

/// Wraps `clang::Index::parser`: a parser for the file at `path`, with no
/// option set. The path is turned into a C string when the parser runs, so
/// it may hold no NUL. Nothing is claimed of the result.
#[verifier::external_body]
fn parser_for<'a>(index: &'a clang::Index<'_>, path: &str) -> (parser: clang::Parser<'a>)
    requires
        is_c_text(path@),
{
    index.parser(path)
}

/// Wraps `clang::Parser::skip_function_bodies`, which sets or clears one
/// option of the parser.
#[verifier::external_body]
fn set_skip_function_bodies(parser: &mut clang::Parser<'_>, on: bool) {
    parser.skip_function_bodies(on);
}

/// Wraps `clang::Parser::single_file_parse`, which sets or clears one option
/// of the parser.
#[verifier::external_body]
fn set_single_file_parse(parser: &mut clang::Parser<'_>, on: bool) {
    parser.single_file_parse(on);
}

/// Wraps `clang::Parser::incomplete`, which sets or clears one option of the
/// parser.
#[verifier::external_body]
fn set_incomplete(parser: &mut clang::Parser<'_>, on: bool) {
    parser.incomplete(on);
}

/// Wraps `clang::Parser::arguments`, which stores the compiler arguments as
/// C strings and panics on a NUL, so no argument may hold one.
#[verifier::external_body]
fn set_arguments(parser: &mut clang::Parser<'_>, arguments: &Vec<&str>)
    requires
        forall|i: int| 0 <= i < arguments@.len() ==> is_c_text(#[trigger] arguments@[i]@),
{
    parser.arguments(arguments.as_slice());
}

/// Wraps `clang::Parser::unsaved`, which stores copies of the unsaved files.
#[verifier::external_body]
fn set_unsaved(parser: &mut clang::Parser<'_>, files: &Vec<clang::Unsaved>) {
    parser.unsaved(files.as_slice());
}

/// Wraps `clang::Parser::parse`, which runs libclang on the parser's file.
/// It fails where libclang reports failure; whether it does, and what the
/// translation unit holds, is libclang's to decide. The crate asserts that
/// libclang returns a translation unit whenever it reports none of the
/// failures it knows.
#[verifier::external_body]
fn parse_unit<'a>(parser: &clang::Parser<'a>) -> (unit: Result<
    clang::TranslationUnit<'a>,
    clang::SourceError,
>) {
    parser.parse()
}

/// Wraps `clang::TranslationUnit::get_file`: the file at `path` in the
/// translation unit, if libclang knows one. The path is turned into a C
/// string, so it may hold no NUL.
#[verifier::external_body]
fn file_in_unit<'u>(unit: &'u clang::TranslationUnit<'u>, path: &str) -> (file: Option<
    clang::source::File<'u>,
>)
    requires
        is_c_text(path@),
{
    unit.get_file(path)
}

/// Wraps `clang::source::File::get_offset_location`: the place at a byte
/// offset in the file.
#[verifier::external_body]
fn location_at<'u>(file: &clang::source::File<'u>, offset: u32) -> (location:
    clang::source::SourceLocation<'u>) {
    file.get_offset_location(offset)
}

/// Wraps `clang::source::SourceRange::new`: the range from `start` up to
/// `end`.
#[verifier::external_body]
fn range_between<'u>(
    start: clang::source::SourceLocation<'u>,
    end: clang::source::SourceLocation<'u>,
) -> (range: clang::source::SourceRange<'u>) {
    clang::source::SourceRange::new(start, end)
}

/// Wraps `clang::source::SourceRange::tokenize`: the tokens that libclang
/// finds in the range. How many there are and what they are is libclang's
/// to decide.
#[verifier::external_body]
fn tokens_in<'u>(range: &clang::source::SourceRange<'u>) -> (tokens: Vec<
    clang::token::Token<'u>,
>) {
    range.tokenize()
}

/// Wraps `clang::token::Token::get_spelling`: the text of a token.
#[verifier::external_body]
fn spelling_of(token: &clang::token::Token<'_>) -> (spelling: String) {
    token.get_spelling()
}

/// Whether `text` holds no NUL character.
pub fn holds_no_nul(text: &str) -> (clean: bool)
    ensures
        clean == is_c_text(text@),
{
    let mut clean = true;
    let ghost seen: Seq<char> = Seq::empty();
    let mut rest = text.chars();
    for c in it: rest
        invariant
            seen == it.history(),
            clean == is_c_text(seen),
    {
        proof {
            let before = seen;
            seen = seen.push(c);
            if before.contains('\0') {
                let at = choose|at: int| 0 <= at < before.len() && before[at] == '\0';
                assert(seen[at] == '\0');
            }
            if c == '\0' {
                assert(seen[before.len() as int] == '\0');
            }
            if seen.contains('\0') && c != '\0' {
                let at = choose|at: int| 0 <= at < seen.len() && seen[at] == '\0';
                assert(before[at] == '\0');
            }
        }
        if c == '\0' {
            clean = false;
        }
    }
    assert(seen == text@);
    clean
}

/// Whether libclang can be given `fragment` as the contents of a file: it
/// holds no NUL, and its length in bytes fits the 32 bits that a file offset
/// has.
pub open spec fn can_be_lexed(fragment: Seq<char>) -> bool {
    is_c_text(fragment) && byte_length(fragment) <= u32::MAX
}

/// The length of `text` in bytes of UTF-8, as `str::len` gives it.
pub open spec fn byte_length(text: Seq<char>) -> usize {
    encode_utf8(text).len() as usize
}

/// The signature that a token stream stands for: the tokens separated by
/// single spaces.
pub open spec fn joined_tokens(tokens: Seq<String>) -> Seq<char> {
    join_with(texts_of(tokens), seq![' '])
}

/// Joins the spellings of a token stream with single spaces.
pub fn join_tokens(tokens: &Vec<String>) -> (joined: String)
    ensures
        joined@ == joined_tokens(tokens@),
{
    let ghost texts = texts_of(tokens@);
    let ghost space = seq![' '];
    proof {
        reveal_strlit(" ");
    }
    let mut joined = String::new();
    let mut i: usize = 0;
    while i < tokens.len()
        invariant
            i <= tokens@.len(),
            texts == texts_of(tokens@),
            space == seq![' '],
            " "@ == space,
            joined@ == join_with(texts.take(i as int), space),
        decreases tokens@.len() - i,
    {
        proof {
            lemma_join_with_step(texts, space, i as int);
        }
        if i > 0 {
            joined.append(" ");
        }
        joined.append(tokens[i].as_str());
        i += 1;
    }
    assert(texts.take(i as int) == texts);
    joined
}

/// Has libclang lex `fragment` as C and returns the spellings of the tokens
/// it finds.
///
/// A fragment that cannot be handed over, because it holds a NUL or is
/// longer than a file offset can say, is refused. So is one that libclang
/// fails on. What libclang finds in the others is not specified.
pub fn lex_fragment(index: &clang::Index<'_>, fragment: &str) -> (spellings: Result<
    Vec<String>,
    QueryError,
>)
    ensures
        !can_be_lexed(fragment@) ==> spellings == Err::<Vec<String>, QueryError>(
            QueryError::InvalidSignatureSyntax,
        ),
{
    let length = fragment.len();
    if !holds_no_nul(fragment) || length > 0xffff_ffff {
        return Err(QueryError::InvalidSignatureSyntax);
    }
    let end: u32 = length as u32;
    proof {
        reveal_strlit("<query>");
        reveal_strlit("-xc");
        reveal_strlit("-E");
        reveal_strlit("-w");
        reveal_strlit("-ferror-limit=1");
    }
    let unsaved = unsaved_file("<query>", fragment);
    let mut parser = parser_for(index, "<query>");
    set_skip_function_bodies(&mut parser, true);
    set_single_file_parse(&mut parser, true);
    set_incomplete(&mut parser, true);
    let mut arguments: Vec<&str> = Vec::new();
    arguments.push("-xc");
    arguments.push("-E");
    arguments.push("-w");
    arguments.push("-ferror-limit=1");
    set_arguments(&mut parser, &arguments);
    let mut files: Vec<clang::Unsaved> = Vec::new();
    files.push(unsaved);
    set_unsaved(&mut parser, &files);
    let unit = match parse_unit(&parser) {
        Ok(unit) => unit,
        Err(_) => {
            return Err(QueryError::InvalidSignatureSyntax);
        },
    };
    let file = match file_in_unit(&unit, "<query>") {
        Some(file) => file,
        None => {
            return Err(QueryError::InvalidSignatureSyntax);
        },
    };
    let range = range_between(location_at(&file, 0), location_at(&file, end));
    let tokens = tokens_in(&range);
    let mut spellings: Vec<String> = Vec::new();
    let mut i: usize = 0;
    while i < tokens.len()
        invariant
            i <= tokens@.len(),
        decreases tokens@.len() - i,
    {
        spellings.push(spelling_of(&tokens[i]));
        i += 1;
    }
    Ok(spellings)
}

/// The signature that `query_string` asks for: its C tokens, as libclang
/// finds them, joined by single spaces; absent where there is no token.
///
/// Fails where `lex_fragment` fails. A signature that is returned is never
/// empty.
pub fn normalise_signature(index: &clang::Index<'_>, query_string: &str) -> (signature: Result<
    Option<String>,
    QueryError,
>)
    ensures
        !can_be_lexed(query_string@) ==> signature == Err::<Option<String>, QueryError>(
            QueryError::InvalidSignatureSyntax,
        ),
        signature matches Ok(Some(text)) ==> text@.len() > 0,
{
    match lex_fragment(index, query_string) {
        Ok(spellings) => Ok(signature_of_tokens(&spellings)),
        Err(error) => Err(error),
    }
}

/// The signature that a token stream stands for, absent where the stream is
/// empty or holds nothing but one empty token.
pub fn signature_of_tokens(tokens: &Vec<String>) -> (signature: Option<String>)
    ensures
        text_view(signature) == nonempty(joined_tokens(tokens@)),
{
    nonempty_text(join_tokens(tokens))
}

/// The tokenizer that asks libclang.
pub struct ClangTokenizer<'a, 'c> {
    pub index: &'a clang::Index<'c>,
}

impl<'a, 'c> SignatureTokenizer for ClangTokenizer<'a, 'c> {
    /// libclang is free in what it answers for a fragment that can be handed
    /// to it; one that cannot is refused.
    open spec fn may_answer(
        &self,
        fragment: Seq<char>,
        answer: Result<Seq<char>, QueryError>,
    ) -> bool {
        !can_be_lexed(fragment) ==> answer == Err::<Seq<char>, QueryError>(
            QueryError::InvalidSignatureSyntax,
        )
    }

    fn tokenize(&self, fragment: &str) -> (tokenized: Result<String, QueryError>)
        ensures
            !can_be_lexed(fragment@) ==> tokenized == Err::<String, QueryError>(
                QueryError::InvalidSignatureSyntax,
            ),
    {
        match lex_fragment(self.index, fragment) {
            Ok(spellings) => Ok(join_tokens(&spellings)),
            Err(error) => Err(error),
        }
    }
}

impl Query {
    /// Parses what the user typed, with libclang as the tokenizer of the
    /// signature part.
    ///
    /// Fails where the signature part cannot be handed to libclang or
    /// libclang fails on it; `Query::from_parts` says what is returned for
    /// each token text that libclang gives. The name of a parsed query is the
    /// trimmed text before the first `::`, whatever libclang does.
    pub fn try_from_user_string(query_str: &str, index: &clang::Index<'_>) -> (parsed: Result<
        Query,
        QueryError,
    >)
        ensures
            !can_be_lexed(signature_part(query_str@)) ==> parsed == Err::<
                Query,
                QueryError,
            >(QueryError::InvalidSignatureSyntax),
            parsed matches Ok(query) ==> query@.name == name_fragment(query_str@)
                && query.well_formed(),
    {
        let (name_part, signature_part) = split_query(query_str);
        let tokenizer = ClangTokenizer { index };
        let tokenized = tokenizer.tokenize(signature_part.as_str());
        Query::from_parts(name_part, tokenized)
    }
}

} // verus!
