use vstd::prelude::*;

verus! {

/// Why a parse was abandoned. A parse either yields a whole tree or one of
/// these; nothing partial is ever handed out. Where the text ends at a
/// place that still needs a character the error is `EndOfInput`, whatever
/// was due there, with one exception: a pair of hexadecimal digits that is
/// cut short is a `MalformedLiteral`.
#[derive(Clone, Copy, Debug, PartialEq, Eq, Structural)]
pub enum ParseError {
    /// A character stood where only certain others are allowed: behind the
    /// selectors of a rule something else than `,` or `{`, behind a number
    /// a unit that is not known, or a word that names no colour where a
    /// colour's name was asked for.
    UnexpectedCharacter,
    /// A fixed token was due and another character stood in its place:
    /// `:`, `;`, `{`, `#`, `<`, `/`, `>`, `=`, `-`, `!`, a quote, the name
    /// in a closing tag, or the keyword of a document type.
    StructuralMismatch,
    /// A number with no digit or with more than one point, or a pair of
    /// hexadecimal digits that is cut short or holds another character.
    MalformedLiteral,
    /// The text ended where a character was still needed.
    EndOfInput,
}

/// What a grammar rule makes of a text from some position on: the value it
/// reads and the number of characters it takes, or the reason it gives up.
pub type Parsed<T> = Result<(T, nat), ParseError>;

/// The outcome `r`, reached after `n` characters that were read before it.
pub open spec fn after<T>(n: nat, r: Parsed<T>) -> Parsed<T> {
    match r {
        Ok((value, taken)) => Ok((value, n + taken)),
        Err(e) => Err(e),
    }
}

/// The result `r` is the one that was `expected`: the same error, or a
/// value that stands for the expected one.
pub open spec fn yields<T: DeepView>(r: Result<T, ParseError>, expected: Result<T::V, ParseError>) -> bool {
    match expected {
        Ok(value) => r is Ok && r->Ok_0.deep_view() == value,
        Err(e) => r is Err && r->Err_0 == e,
    }
}

} // verus!
