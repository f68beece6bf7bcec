//! The grammar of style sheets, as functions from a text and a position to
//! what is read there.

use vstd::prelude::*;
use crate::chars::{digit, hex_value, identifier_char, same_ignoring_ascii_case};
use crate::error::{after, ParseError, Parsed};
use crate::scan::{ended, further, left, run_len, span, token, whitespace_len, CharClass};
use crate::specificity::{
    descending,
    is_stable_sort,
    lemma_most_specific_first_is_stable_sort,
    most_specific_first,
};
use crate::stylesheet::{
    decimal_literal,
    Color,
    ColorConst,
    DeclarationView,
    RuleView,
    SelectorView,
    SimpleSelectorView,
    StylesheetView,
    Unit,
    ValueView,
};

verus! {

/// The length of the identifier that starts at `pos`; it may be empty.
pub open spec fn identifier_len(s: Seq<char>, pos: int) -> nat {
    run_len(s, pos, CharClass::Identifier)
}

/// A simple selector is a run of parts: `.` and a class name, `#` and an
/// id, `*`, or a tag name. A later id or tag name replaces an earlier one.
/// The run ends before the first character that starts no part.
pub open spec fn simple_selector_from(s: Seq<char>, pos: int, so_far: SimpleSelectorView) -> (
    SimpleSelectorView,
    nat,
)
    decreases left(s, pos),
{
    if ended(s, pos) {
        (so_far, 0)
    } else if s[pos] == '.' {
        let n = identifier_len(s, pos + 1);
        further(
            1 + n,
            simple_selector_from(s, pos + 1 + n, so_far.with_class(span(s, pos + 1, n))),
        )
    } else if s[pos] == '#' {
        let n = identifier_len(s, pos + 1);
        further(1 + n, simple_selector_from(s, pos + 1 + n, so_far.with_id(span(s, pos + 1, n))))
    } else if s[pos] == '*' {
        further(1, simple_selector_from(s, pos + 1, so_far))
    } else if identifier_char(s[pos]) {
        let n = identifier_len(s, pos);
        further(n, simple_selector_from(s, pos + n, so_far.with_tag_name(span(s, pos, n))))
    } else {
        (so_far, 0)
    }
}

pub open spec fn simple_selector(s: Seq<char>, pos: int) -> (SimpleSelectorView, nat) {
    simple_selector_from(s, pos, SimpleSelectorView::empty())
}

/// Simple selectors with `,` between them, and whitespace allowed on
/// either side of it, up to a `{`, which is left unread.
pub open spec fn selector_list_from(s: Seq<char>, pos: int, so_far: Seq<SelectorView>) -> Parsed<
    Seq<SelectorView>,
>
    decreases left(s, pos),
{
    let (simple, n) = simple_selector(s, pos);
    let w = whitespace_len(s, pos + n);
    let at = pos + n + w;
    let list = so_far.push(SelectorView::Simple(simple));
    if ended(s, at) {
        Err(ParseError::EndOfInput)
    } else if s[at] == ',' {
        let w2 = whitespace_len(s, at + 1);
        after(n + w + 1 + w2, selector_list_from(s, at + 1 + w2, list))
    } else if s[at] == '{' {
        Ok((list, n + w))
    } else {
        Err(ParseError::UnexpectedCharacter)
    }
}

/// The selectors of a rule, the most specific first.
pub open spec fn selectors(s: Seq<char>, pos: int) -> Parsed<Seq<SelectorView>> {
    match selector_list_from(s, pos, Seq::empty()) {
        Ok((list, n)) => Ok((most_specific_first(list), n)),
        Err(e) => Err(e),
    }
}

/// Two hexadecimal digits, read as one byte.
pub open spec fn hex_pair(s: Seq<char>, pos: int) -> Parsed<u8> {
    if pos < 0 || pos + 2 > s.len() {
        Err(ParseError::MalformedLiteral)
    } else {
        match (hex_value(s[pos]), hex_value(s[pos + 1])) {
            (Some(high), Some(low)) => Ok(((16 * high + low) as u8, 2)),
            _ => Err(ParseError::MalformedLiteral),
        }
    }
}

/// `#` and three hexadecimal pairs: red, green, blue. The colour is opaque.
pub open spec fn color(s: Seq<char>, pos: int) -> Parsed<ValueView> {
    match (token(s, pos, '#'), hex_pair(s, pos + 1), hex_pair(s, pos + 3), hex_pair(s, pos + 5)) {
        (Err(e), _, _, _) => Err(e),
        (_, Err(e), _, _) => Err(e),
        (_, _, Err(e), _) => Err(e),
        (_, _, _, Err(e)) => Err(e),
        (Ok(_), Ok((r, _)), Ok((g, _)), Ok((b, _))) => Ok(
            (ValueView::ColorValue(Color { r, g, b, a: 255 }), 7),
        ),
    }
}

/// The unit of a length: an identifier that reads `px` in any case.
pub open spec fn unit(s: Seq<char>, pos: int) -> Parsed<Unit> {
    let n = identifier_len(s, pos);
    if same_ignoring_ascii_case(span(s, pos, n), "px"@) {
        Ok((Unit::Px, n))
    } else {
        Err(ParseError::UnexpectedCharacter)
    }
}

/// A number: the whole run of digits and points, which must be a decimal
/// number.
pub open spec fn number(s: Seq<char>, pos: int) -> Parsed<Seq<char>> {
    let n = run_len(s, pos, CharClass::Number);
    if decimal_literal(span(s, pos, n)) {
        Ok((span(s, pos, n), n))
    } else {
        Err(ParseError::MalformedLiteral)
    }
}

/// A length: a number and directly behind it a unit.
pub open spec fn length(s: Seq<char>, pos: int) -> Parsed<ValueView> {
    match number(s, pos) {
        Err(e) => Err(e),
        Ok((size, n)) => match unit(s, pos + n) {
            Err(e) => Err(e),
            Ok((u, k)) => Ok((ValueView::Length(size, u), n + k)),
        },
    }
}

/// The colour that a word names, if it names one.
pub open spec fn color_name(word: Seq<char>) -> Option<ColorConst> {
    if word == "red"@ {
        Some(ColorConst::Red)
    } else if word == "green"@ {
        Some(ColorConst::Green)
    } else if word == "blue"@ {
        Some(ColorConst::Blue)
    } else {
        None
    }
}

/// The value that a word stands for: a colour if it names one, else a
/// keyword.
pub open spec fn word_value(word: Seq<char>) -> ValueView {
    match color_name(word) {
        Some(name) => ValueView::ColorConstValue(word, name),
        None => ValueView::Keyword(word),
    }
}

/// A keyword: an identifier, which may be empty.
pub open spec fn keyword(s: Seq<char>, pos: int) -> Parsed<ValueView> {
    let n = identifier_len(s, pos);
    Ok((word_value(span(s, pos, n)), n))
}

/// A value: a length if a digit comes first, a colour if `#` does, else a
/// keyword.
pub open spec fn value(s: Seq<char>, pos: int) -> Parsed<ValueView> {
    if ended(s, pos) {
        Err(ParseError::EndOfInput)
    } else if digit(s[pos]) {
        length(s, pos)
    } else if s[pos] == '#' {
        color(s, pos)
    } else {
        keyword(s, pos)
    }
}

/// What follows the `:` of a declaration: whitespace, the value,
/// whitespace, `;`.
pub open spec fn declaration_value(s: Seq<char>, pos: int) -> Parsed<ValueView> {
    let w = whitespace_len(s, pos);
    match value(s, pos + w) {
        Err(e) => Err(e),
        Ok((v, k)) => {
            let w2 = whitespace_len(s, pos + w + k);
            match token(s, pos + w + k + w2, ';') {
                Err(e) => Err(e),
                Ok(_) => Ok((v, w + k + w2 + 1)),
            }
        },
    }
}

/// A declaration: the property's name, whitespace, `:`, whitespace, the
/// value, whitespace, `;`.
pub open spec fn declaration(s: Seq<char>, pos: int) -> Parsed<DeclarationView> {
    let n = identifier_len(s, pos);
    let w = whitespace_len(s, pos + n);
    match token(s, pos + n + w, ':') {
        Err(e) => Err(e),
        Ok(_) => match declaration_value(s, pos + n + w + 1) {
            Err(e) => Err(e),
            Ok((v, k)) => Ok((DeclarationView { name: span(s, pos, n), value: v }, n + w + 1 + k)),
        },
    }
}

/// Declarations, each after whitespace, up to and with the closing `}`.
pub open spec fn declaration_list_from(s: Seq<char>, pos: int, so_far: Seq<DeclarationView>) -> Parsed<
    Seq<DeclarationView>,
>
    decreases left(s, pos),
{
    let w = whitespace_len(s, pos);
    if ended(s, pos + w) {
        Err(ParseError::EndOfInput)
    } else if s[pos + w] == '}' {
        Ok((so_far, w + 1))
    } else {
        match declaration(s, pos + w) {
            Err(e) => Err(e),
            Ok((d, k)) => after(w + k, declaration_list_from(s, pos + w + k, so_far.push(d))),
        }
    }
}

/// The block of a rule: `{`, the declarations, `}`.
pub open spec fn declarations(s: Seq<char>, pos: int) -> Parsed<Seq<DeclarationView>> {
    match token(s, pos, '{') {
        Err(e) => Err(e),
        Ok(_) => after(1, declaration_list_from(s, pos + 1, Seq::empty())),
    }
}

/// A rule: its selectors and its block.
pub open spec fn rule(s: Seq<char>, pos: int) -> Parsed<RuleView> {
    match selectors(s, pos) {
        Err(e) => Err(e),
        Ok((sels, n)) => match declarations(s, pos + n) {
            Err(e) => Err(e),
            Ok((decls, k)) => Ok((RuleView { selectors: sels, declarations: decls }, n + k)),
        },
    }
}

/// Rules, each after whitespace, to the end of the text.
pub open spec fn rules_from(s: Seq<char>, pos: int, so_far: Seq<RuleView>) -> Parsed<Seq<RuleView>>
    decreases left(s, pos),
{
    let w = whitespace_len(s, pos);
    if ended(s, pos + w) {
        Ok((so_far, w))
    } else {
        match rule(s, pos + w) {
            Err(e) => Err(e),
            Ok((r, k)) => after(w + k, rules_from(s, pos + w + k, so_far.push(r))),
        }
    }
}

/// The style sheet that a text writes down.
pub open spec fn stylesheet(s: Seq<char>) -> Result<StylesheetView, ParseError> {
    match rules_from(s, 0, Seq::empty()) {
        Ok((rules, _)) => Ok(StylesheetView { rules }),
        Err(e) => Err(e),
    }
}

/// Every selector list that is read holds one selector more, at least,
/// than were read before it.
pub proof fn lemma_selector_list_grows(s: Seq<char>, pos: int, so_far: Seq<SelectorView>)
    ensures
        match selector_list_from(s, pos, so_far) {
            Ok((list, _)) => list.len() > so_far.len(),
            Err(_) => true,
        },
    decreases left(s, pos),
{
    let (simple, n) = simple_selector(s, pos);
    let w = whitespace_len(s, pos + n);
    let at = pos + n + w;
    if !ended(s, at) && s[at] == ',' {
        let w2 = whitespace_len(s, at + 1);
        lemma_selector_list_grows(s, at + 1 + w2, so_far.push(SelectorView::Simple(simple)));
    }
}

/// A rule has at least one selector.
pub proof fn lemma_rule_has_a_selector(s: Seq<char>, pos: int)
    ensures
        match rule(s, pos) {
            Ok((r, _)) => r.selectors.len() >= 1,
            Err(_) => true,
        },
{
    lemma_selector_list_grows(s, pos, Seq::empty());
    let _ = lemma_rule_selectors_sorted(s, pos);
}

/// The selectors of a rule are those that were written, sorted stably by
/// descending specificity: none is outranked by one behind it, and
/// selectors of equal specificity keep the order in which they were
/// written. `order` tells where each one stood.
pub proof fn lemma_rule_selectors_sorted(s: Seq<char>, pos: int) -> (order: Seq<int>)
    ensures
        match rule(s, pos) {
            Ok((r, _)) => match selector_list_from(s, pos, Seq::empty()) {
                Ok((written, _)) => is_stable_sort(written, r.selectors, order),
                Err(_) => false,
            },
            Err(_) => true,
        },
{
    match selector_list_from(s, pos, Seq::empty()) {
        Ok((written, _)) => lemma_most_specific_first_is_stable_sort(written),
        Err(_) => Seq::empty(),
    }
}

/// Rules that are read keep the selectors of every rule in descending
/// order of specificity, if the rules read before them did.
pub proof fn lemma_rules_from_descending(s: Seq<char>, pos: int, so_far: Seq<RuleView>)
    requires
        forall|i: int| 0 <= i < so_far.len() ==> descending((#[trigger] so_far[i]).selectors),
    ensures
        match rules_from(s, pos, so_far) {
            Ok((rules, _)) => forall|i: int|
                0 <= i < rules.len() ==> descending((#[trigger] rules[i]).selectors),
            Err(_) => true,
        },
    decreases left(s, pos),
{
    let w = whitespace_len(s, pos);
    if !ended(s, pos + w) {
        match rule(s, pos + w) {
            Err(_) => {},
            Ok((r, k)) => {
                let _ = lemma_rule_selectors_sorted(s, pos + w);
                lemma_rules_from_descending(s, pos + w + k, so_far.push(r));
            },
        }
    }
}

/// In every style sheet that is read, the selectors of every rule stand
/// in descending order of specificity.
pub proof fn lemma_stylesheet_selectors_descending(s: Seq<char>)
    ensures
        match stylesheet(s) {
            Ok(sheet) => forall|i: int|
                0 <= i < sheet.rules.len() ==> descending((#[trigger] sheet.rules[i]).selectors),
            Err(_) => true,
        },
{
    lemma_rules_from_descending(s, 0, Seq::empty());
}

} // verus!
