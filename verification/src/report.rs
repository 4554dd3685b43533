//! The long form of a diagnostic: the line of the source with a mark below
//! the place of the failure, as pest writes its errors.

use vstd::prelude::*;
use vstd::string::*;
use crate::diagnostic::Diagnostic;
use crate::grammar::Rule;

verus! {

/// What pest writes for a parsing error at byte `pos` of `input` that
/// expected the productions `expected`; `None` where `pos` is no place in
/// `input` at which a character starts or the text ends.
pub uninterp spec fn pest_rendering(input: Seq<char>, pos: int, expected: Seq<Rule>) -> Option<
    Seq<char>,
>;

/// The model of an optional text.
pub open spec fn text_of(out: Option<String>) -> Option<Seq<char>> {
    match out {
        Some(text) => Some(text@),
        None => None,
    }
}

/// Calls `pest::Position::new` on `input` and `pos`, and where that gives a
/// position, `pest::error::Error::new_from_pos` with a parsing error that
/// expected `expected` and nothing unexpected, and writes the error with its
/// `Display`. The contract claims only that what comes back depends on
/// nothing but the three arguments.
#[verifier::external_body]
fn pest_report(input: &str, pos: usize, expected: &Vec<Rule>) -> (out: Option<String>)
    ensures
        text_of(out) == pest_rendering(input@, pos as int, expected@),
{
    let position = pest::Position::new(input, pos)?;
    let variant = pest::error::ErrorVariant::ParsingError {
        positives: expected.clone(),
        negatives: Vec::new(),
    };
    Some(format!("{}", pest::error::Error::new_from_pos(variant, position)))
}

/// The long form of `d`: the rendering where there is one, and else the
/// sentence of `d`.
pub open spec fn chosen(d: Diagnostic, rendering: Option<Seq<char>>) -> Seq<char> {
    match rendering {
        Some(text) => text,
        None => d.message@,
    }
}

/// The long form of `d` given what pest rendered for it: the rendering, or
/// the sentence of `d` where there is none.
pub fn report_with(d: &Diagnostic, rendering: Option<String>) -> (out: String)
    ensures
        out@ == chosen(*d, text_of(rendering)),
{
    match rendering {
        Some(text) => text,
        None => d.message.clone(),
    }
}

/// The long form of the diagnostic `d` of a failure over `input`: what pest
/// writes for a parsing error at its offset with its expected productions,
/// or the sentence of `d` where pest finds no position at that offset.
pub fn report(input: &str, d: &Diagnostic) -> (out: String)
    ensures
        out@ == chosen(*d, pest_rendering(input@, d.offset as int, d.expected@)),
{
    let rendering = pest_report(input, d.offset, &d.expected);
    report_with(d, rendering)
}

} // verus!
