//! Function declarations that a search ranks, and the texts made from them.

use crate::normalise::{normalise_type, spaced_stars};
use crate::text::{decimal, join_with, lemma_join_with_step, push_decimal};
use vstd::prelude::*;
use vstd::string::StringExecFns;

verus! {

/// Where a declaration stands in its source file.
#[derive(Debug)]
pub struct Location {
    pub file_name: String,
    /// Counted from 1.
    pub line: u32,
    /// Counted from 1.
    pub column: u32,
}

pub struct LocationView {
    pub file_name: Seq<char>,
    pub line: nat,
    pub column: nat,
}

impl View for Location {
    type V = LocationView;

    open spec fn view(&self) -> LocationView {
        LocationView { file_name: self.file_name@, line: self.line as nat, column: self.column as nat }
    }
}

/// One declared function: its name, where it is declared, the spelling of the
/// type it returns, and for each parameter the spelling of its type and its
/// name, if it has one. The order of the parameters is that of the
/// declaration.
#[derive(Debug)]
pub struct Function {
    pub name: String,
    pub location: Location,
    pub return_type: String,
    pub parameters: Vec<(String, Option<String>)>,
}

pub struct ParameterView {
    pub type_spelling: Seq<char>,
    pub name: Option<Seq<char>>,
}

pub struct FunctionView {
    pub name: Seq<char>,
    pub location: LocationView,
    pub return_type: Seq<char>,
    pub parameters: Seq<ParameterView>,
}

pub open spec fn parameter_view(parameter: (String, Option<String>)) -> ParameterView {
    ParameterView {
        type_spelling: parameter.0@,
        name: match parameter.1 {
            Some(name) => Some(name@),
            None => None,
        },
    }
}

impl View for Function {
    type V = FunctionView;

    open spec fn view(&self) -> FunctionView {
        FunctionView {
            name: self.name@,
            location: self.location@,
            return_type: self.return_type@,
            parameters: self.parameters@.map_values(|p: (String, Option<String>)| parameter_view(p)),
        }
    }
}

/// The signature of a candidate as the search compares it: the normalised
/// return type, then the normalised parameter types in parentheses, with a
/// space on each side of every parenthesis and comma.
pub open spec fn signature_text(candidate: FunctionView) -> Seq<char> {
    spaced_stars(candidate.return_type) + seq![' ', '(', ' '] + join_with(
        normalised_types(candidate.parameters),
        seq![' ', ',', ' '],
    ) + seq![' ', ')']
}

/// The normalised type of each parameter, in order.
pub open spec fn normalised_types(parameters: Seq<ParameterView>) -> Seq<Seq<char>> {
    parameters.map_values(|p: ParameterView| spaced_stars(p.type_spelling))
}

/// A parameter as a result line shows it: its type, then its name if it has
/// one.
pub open spec fn parameter_text(parameter: ParameterView) -> Seq<char> {
    match parameter.name {
        Some(name) => parameter.type_spelling + seq![' '] + name,
        None => parameter.type_spelling,
    }
}

/// The line that reports a candidate: where it is declared, a colon and a
/// space, then the declaration.
pub open spec fn result_line(candidate: FunctionView) -> Seq<char> {
    candidate.location.file_name + seq![':'] + decimal(candidate.location.line) + seq![':']
        + decimal(candidate.location.column) + seq![':', ' '] + candidate.return_type + seq![' ']
        + candidate.name + seq!['('] + join_with(
        parameter_texts(candidate.parameters),
        seq![',', ' '],
    ) + seq![')']
}

/// Each parameter as a result line shows it, in order.
pub open spec fn parameter_texts(parameters: Seq<ParameterView>) -> Seq<Seq<char>> {
    parameters.map_values(|p: ParameterView| parameter_text(p))
}

impl Location {
    /// Whether line and column are counted from 1.
    pub open spec fn well_formed(&self) -> bool {
        self.line >= 1 && self.column >= 1
    }
}

impl Function {
    /// Whether the declaration has a name and a place: the name is not
    /// empty, and line and column are counted from 1.
    pub open spec fn well_formed(&self) -> bool {
        self.name@.len() > 0 && self.location.well_formed()
    }

    /// Whether the declaration has a name and a place.
    pub fn is_well_formed(&self) -> (ok: bool)
        ensures
            ok == self.well_formed(),
    {
        !self.name.as_str().is_empty() && self.location.line >= 1 && self.location.column >= 1
    }

    /// The text that a signature query is compared with.
    pub fn normalised_signature(&self) -> (out: String)
        ensures
            out@ == signature_text(self@),
    {
        let ghost types = normalised_types(self@.parameters);
        let ghost separator = seq![' ', ',', ' '];
        let mut out = normalise_type(self.return_type.as_str());
        proof {
            reveal_strlit(" ( ");
            reveal_strlit(" , ");
            reveal_strlit(" )");
        }
        out.append(" ( ");
        let ghost head = out@;
        let mut i: usize = 0;
        while i < self.parameters.len()
            invariant
                i <= self.parameters.len(),
                types == normalised_types(self@.parameters),
                separator == seq![' ', ',', ' '],
                " , "@ == separator,
                out@ == head + join_with(types.take(i as int), separator),
            decreases self.parameters.len() - i,
        {
            proof {
                lemma_join_with_step(types, separator, i as int);
            }
            if i > 0 {
                out.append(" , ");
            }
            let spelling = normalise_type(self.parameters[i].0.as_str());
            out.append(spelling.as_str());
            i += 1;
        }
        assert(types.take(i as int) == types);
        out.append(" )");
        out
    }

    /// The line that reports this candidate.
    pub fn render(&self) -> (out: String)
        ensures
            out@ == result_line(self@),
    {
        let ghost texts = parameter_texts(self@.parameters);
        let ghost separator = seq![',', ' '];
        proof {
            reveal_strlit(":");
            reveal_strlit(": ");
            reveal_strlit(" ");
            reveal_strlit("(");
            reveal_strlit(", ");
            reveal_strlit(")");
        }
        let mut out = self.location.file_name.clone();
        out.append(":");
        push_decimal(&mut out, self.location.line);
        out.append(":");
        push_decimal(&mut out, self.location.column);
        out.append(": ");
        out.append(self.return_type.as_str());
        out.append(" ");
        out.append(self.name.as_str());
        out.append("(");
        let ghost head = out@;
        let mut i: usize = 0;
        while i < self.parameters.len()
            invariant
                i <= self.parameters.len(),
                texts == parameter_texts(self@.parameters),
                separator == seq![',', ' '],
                ", "@ == separator,
                " "@ == seq![' '],
                out@ == head + join_with(texts.take(i as int), separator),
            decreases self.parameters.len() - i,
        {
            proof {
                lemma_join_with_step(texts, separator, i as int);
            }
            if i > 0 {
                out.append(", ");
            }
            out.append(self.parameters[i].0.as_str());
            match &self.parameters[i].1 {
                Some(name) => {
                    out.append(" ");
                    out.append(name.as_str());
                },
                None => {},
            }
            i += 1;
        }
        assert(texts.take(i as int) == texts);
        out.append(")");
        out
    }
}

} // verus!
