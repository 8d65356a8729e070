//! What the user searches for: a name, a signature, or both.

use crate::text::{chars_of, has_bare_ends, string_of_range, trim, trimmed};
use vstd::prelude::*;

verus! {

/// A parsed query. Each part is absent where the user gave none.
#[derive(Debug)]
pub struct Query {
    /// The function name searched for, without surrounding whitespace; never
    /// empty.
    pub name: Option<String>,
    /// The signature searched for, as space-joined tokens; never empty.
    pub normalised_signature: Option<String>,
}

pub struct QueryView {
    pub name: Option<Seq<char>>,
    pub normalised_signature: Option<Seq<char>>,
}

pub open spec fn text_view(text: Option<String>) -> Option<Seq<char>> {
    match text {
        Some(t) => Some(t@),
        None => None,
    }
}

impl View for Query {
    type V = QueryView;

    open spec fn view(&self) -> QueryView {
        QueryView {
            name: text_view(self.name),
            normalised_signature: text_view(self.normalised_signature),
        }
    }
}

/// Why a query could not be parsed.
#[derive(Debug, Clone, Copy, PartialEq, Eq, Structural)]
pub enum QueryError {
    /// The signature part of the query cannot be split into C tokens.
    InvalidSignatureSyntax,
}

/// Whether the delimiter `::` stands at position `at` of `raw`.
pub open spec fn delimiter_at(raw: Seq<char>, at: int) -> bool {
    0 <= at && at + 1 < raw.len() && raw[at] == ':' && raw[at + 1] == ':'
}

/// Whether the first delimiter of `raw` stands at position `at`.
pub open spec fn splits_at(raw: Seq<char>, at: int) -> bool {
    delimiter_at(raw, at) && forall|earlier: int| 0 <= earlier < at ==> !delimiter_at(raw, earlier)
}

/// Where the first delimiter of `raw` stands, if `raw` has one.
pub open spec fn first_delimiter(raw: Seq<char>) -> Option<int> {
    if exists|at: int| splits_at(raw, at) {
        Some(choose|at: int| splits_at(raw, at))
    } else {
        None
    }
}

/// What stands before the first delimiter; absent without a delimiter.
pub open spec fn name_part(raw: Seq<char>) -> Option<Seq<char>> {
    match first_delimiter(raw) {
        Some(at) => Some(raw.take(at)),
        None => None,
    }
}

/// What stands behind the first delimiter; without a delimiter, all of `raw`.
pub open spec fn signature_part(raw: Seq<char>) -> Seq<char> {
    match first_delimiter(raw) {
        Some(at) => raw.skip(at + 2),
        None => raw,
    }
}

/// `text`, or nothing where `text` is empty.
pub open spec fn nonempty(text: Seq<char>) -> Option<Seq<char>> {
    if text.len() == 0 {
        None
    } else {
        Some(text)
    }
}

/// The name that a name part asks for: the part without the white space
/// around it, absent where nothing is left.
pub open spec fn name_of_part(part: Option<Seq<char>>) -> Option<Seq<char>> {
    match part {
        Some(text) => nonempty(trimmed(text)),
        None => None,
    }
}

/// The name that the query `raw` asks for.
pub open spec fn name_fragment(raw: Seq<char>) -> Option<Seq<char>> {
    name_of_part(name_part(raw))
}

/// The delimiter found first is the first delimiter.
pub proof fn lemma_first_delimiter(raw: Seq<char>, at: int)
    requires
        splits_at(raw, at),
    ensures
        first_delimiter(raw) == Some(at),
{
    // Of two places that split `raw`, neither stands before the other.
    let chosen = choose|other: int| splits_at(raw, other);
    assert(!delimiter_at(raw, chosen) || chosen >= at);
    assert(chosen <= at);
}

/// Where the first `::` of `chars` stands.
pub fn find_delimiter(chars: &Vec<char>) -> (found: Option<usize>)
    ensures
        match found {
            Some(at) => first_delimiter(chars@) == Some(at as int) && at + 1 < chars@.len(),
            None => first_delimiter(chars@).is_none(),
        },
{
    let n = chars.len();
    let mut i: usize = 0;
    while i < n
        invariant
            i <= n,
            n == chars@.len(),
            forall|earlier: int| 0 <= earlier < i ==> !delimiter_at(chars@, earlier),
        decreases n - i,
    {
        if chars[i] == ':' && i + 1 < n && chars[i + 1] == ':' {
            proof {
                lemma_first_delimiter(chars@, i as int);
            }
            return Some(i);
        }
        i += 1;
    }
    None
}

/// Splits a query at its first `::` into the part that names a function and
/// the part that describes a signature. A query without `::` is all
/// signature.
pub fn split_query(raw: &str) -> (parts: (Option<String>, String))
    ensures
        text_view(parts.0) == name_part(raw@),
        parts.1@ == signature_part(raw@),
{
    let chars = chars_of(raw);
    let end = chars.len();
    match find_delimiter(&chars) {
        Some(at) => {
            let name = string_of_range(&chars, 0, at);
            let signature = string_of_range(&chars, at + 2, end);
            (Some(name), signature)
        },
        None => {
            let signature = string_of_range(&chars, 0, end);
            (None, signature)
        },
    }
}

/// `text`, or nothing where `text` is empty.
pub fn nonempty_text(text: String) -> (out: Option<String>)
    ensures
        text_view(out) == nonempty(text@),
{
    if text.as_str().is_empty() {
        None
    } else {
        Some(text)
    }
}

/// What a tokenizer's answer says: the text it returned, or its refusal.
pub open spec fn answer_view(answer: Result<String, QueryError>) -> Result<Seq<char>, QueryError> {
    match answer {
        Ok(text) => Ok(text@),
        Err(error) => Err(error),
    }
}

/// What parsing comes to: the query that was built, or the failure.
pub open spec fn outcome_view(parsed: Result<Query, QueryError>) -> Result<QueryView, QueryError> {
    match parsed {
        Ok(query) => Ok(query@),
        Err(error) => Err(error),
    }
}

/// The outcome of parsing, given the name part of the raw text and the
/// tokenizer's answer for the signature part. A refusal of the tokenizer is
/// the failure of the query. Otherwise the name is the name part without the
/// white space around it and the signature is the tokenizer's text, each
/// absent where it is empty.
pub open spec fn assembled(
    name_part: Option<Seq<char>>,
    answer: Result<Seq<char>, QueryError>,
) -> Result<QueryView, QueryError> {
    match answer {
        Ok(text) => Ok(
            QueryView { name: name_of_part(name_part), normalised_signature: nonempty(text) },
        ),
        Err(error) => Err(error),
    }
}

/// Splits a fragment of C into tokens.
///
/// The query parser hands the signature part of a query to a tokenizer and
/// takes the text it returns as the signature to search for.
pub trait SignatureTokenizer {
    /// Whether `answer` is one that this tokenizer may give for `fragment`.
    /// A tokenizer says here what it can promise of its answers; one that
    /// promises nothing admits every answer.
    open spec fn may_answer(
        &self,
        fragment: Seq<char>,
        answer: Result<Seq<char>, QueryError>,
    ) -> bool {
        true
    }

    /// The tokens of `fragment` joined by single spaces, or
    /// `InvalidSignatureSyntax` where `fragment` cannot be split into tokens.
    fn tokenize(&self, fragment: &str) -> (answer: Result<String, QueryError>)
        ensures
            self.may_answer(fragment@, answer_view(answer)),
    ;
}

impl Query {
    /// Whether each part that is present has content: a name that neither
    /// starts nor ends with white space, a signature that is not empty.
    pub open spec fn well_formed(&self) -> bool {
        &&& self@.name matches Some(name) ==> name.len() > 0 && has_bare_ends(name)
        &&& self@.normalised_signature matches Some(signature) ==> signature.len() > 0
    }

    /// Builds the query from the name part of the raw text, as `split_query`
    /// gives it, and from what the tokenizer made of the signature part.
    ///
    /// A tokenizer's failure is the query's failure. Otherwise the name is
    /// the name part without surrounding white space and the signature is the
    /// tokenizer's text, each absent where it is empty.
    pub fn from_parts(name_part: Option<String>, tokenized: Result<String, QueryError>) -> (parsed:
        Result<Query, QueryError>)
        ensures
            outcome_view(parsed) == assembled(text_view(name_part), answer_view(tokenized)),
            parsed matches Ok(query) ==> query.well_formed(),
    {
        match tokenized {
            Ok(text) => {
                let name = match name_part {
                    Some(part) => nonempty_text(trim(part.as_str())),
                    None => None,
                };
                Ok(Query { name, normalised_signature: nonempty_text(text) })
            },
            Err(error) => Err(error),
        }
    }

    /// Parses a query: `name::signature`, `name::`, `::signature` or just
    /// `signature`.
    ///
    /// The text behind the first `::`, or all of the text where there is no
    /// `::`, goes through `tokenizer`, once and as it stands. The outcome is
    /// what `assembled` makes of the text before the `::` and of the answer
    /// that the tokenizer gave: its refusal fails the query, its text is the
    /// signature.
    pub fn parse<T: SignatureTokenizer>(raw: &str, tokenizer: &T) -> (parsed: Result<
        Query,
        QueryError,
    >)
        ensures
            exists|answer: Result<Seq<char>, QueryError>|
                #[trigger] tokenizer.may_answer(signature_part(raw@), answer) && outcome_view(
                    parsed,
                ) == assembled(name_part(raw@), answer),
            parsed matches Ok(query) ==> query@.name == name_fragment(raw@) && query.well_formed(),
    {
        let (name_part, signature_part) = split_query(raw);
        let tokenized = tokenizer.tokenize(signature_part.as_str());
        Query::from_parts(name_part, tokenized)
    }
}

} // verus!
