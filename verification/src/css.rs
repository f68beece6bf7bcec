//! The reader of style sheets.

use vstd::prelude::*;
use crate::chars::{hex_digit, is_digit, is_number_char, valid_identifier_char};
use crate::css_grammar::{
    color,
    color_name,
    declaration,
    declaration_list_from,
    declarations,
    hex_pair,
    identifier_len,
    keyword,
    length,
    number,
    rule,
    rules_from,
    selector_list_from,
    selectors,
    simple_selector,
    simple_selector_from,
    stylesheet,
    unit,
    value,
};
use crate::error::{after, yields, ParseError};
use crate::scan::{
    further,
    left,
    lemma_run_by_test,
    reads,
    span,
    takes,
    text_is,
    text_is_ignoring_ascii_case,
    CharClass,
    Cursor,
    Scanner,
};
use crate::specificity::{
    descending,
    lemma_most_specific_first_is_stable_sort,
    sort_by_specificity,
};
use crate::stylesheet::{
    Color,
    ColorConst,
    Decimal,
    Declaration,
    Rule,
    Selector,
    SimpleSelector,
    Stylesheet,
    Unit,
    Value,
    ValueView,
};

verus! {

/// A reader of style sheets, somewhere in its text.
#[derive(Debug)]
pub struct Parser {
    scan: Scanner,
}

impl View for Parser {
    type V = Cursor;

    closed spec fn view(&self) -> Cursor {
        self.scan@
    }
}

impl Parser {
    /// A reader at the start of `source`.
    pub fn new(source: &str) -> (r: Parser)
        ensures
            r@ == (Cursor { input: source@, pos: 0 }),
    {
        Parser { scan: Scanner::new(source) }
    }

    /// Reads an identifier, which may be empty.
    pub fn parse_identifier(&mut self) -> (r: String)
        ensures
            takes(
                old(self)@,
                final(self)@,
                r,
                (
                    span(
                        old(self)@.input,
                        old(self)@.pos,
                        identifier_len(old(self)@.input, old(self)@.pos),
                    ),
                    identifier_len(old(self)@.input, old(self)@.pos),
                ),
            ),
    {
        let word = self.scan.consume_while(valid_identifier_char);
        proof {
            lemma_run_by_test(
                valid_identifier_char,
                old(self)@.input,
                old(self)@.pos,
                word@.len(),
                CharClass::Identifier,
            );
        }
        word
    }

    /// Reads two hexadecimal digits as one byte.
    pub fn parse_hex_pair(&mut self) -> (r: Result<u8, ParseError>)
        ensures
            reads(old(self)@, final(self)@, r, hex_pair(old(self)@.input, old(self)@.pos)),
    {
        let high = match self.scan.consume_char() {
            Ok(c) => c,
            Err(_) => {
                return Err(ParseError::MalformedLiteral);
            },
        };
        let low = match self.scan.consume_char() {
            Ok(c) => c,
            Err(_) => {
                return Err(ParseError::MalformedLiteral);
            },
        };
        match (hex_digit(high), hex_digit(low)) {
            (Some(h), Some(l)) => Ok(h * 16 + l),
            _ => Err(ParseError::MalformedLiteral),
        }
    }

    /// Reads a colour written as `#` and six hexadecimal digits.
    pub fn parse_color(&mut self) -> (r: Result<Value, ParseError>)
        ensures
            reads(old(self)@, final(self)@, r, color(old(self)@.input, old(self)@.pos)),
    {
        self.scan.expect_char('#')?;
        let r = self.parse_hex_pair()?;
        let g = self.parse_hex_pair()?;
        let b = self.parse_hex_pair()?;
        Ok(Value::ColorValue(Color { r, g, b, a: 255 }))
    }

    /// Reads the unit of a length.
    pub fn parse_unit(&mut self) -> (r: Result<Unit, ParseError>)
        ensures
            reads(old(self)@, final(self)@, r, unit(old(self)@.input, old(self)@.pos)),
    {
        let word = self.parse_identifier();
        if text_is_ignoring_ascii_case(word.as_str(), "px") {
            Ok(Unit::Px)
        } else {
            Err(ParseError::UnexpectedCharacter)
        }
    }

    /// Reads a number.
    pub fn parse_float(&mut self) -> (r: Result<Decimal, ParseError>)
        ensures
            reads(old(self)@, final(self)@, r, number(old(self)@.input, old(self)@.pos)),
    {
        let text = self.scan.consume_while(is_number_char);
        proof {
            lemma_run_by_test(
                is_number_char,
                old(self)@.input,
                old(self)@.pos,
                text@.len(),
                CharClass::Number,
            );
        }
        match Decimal::new(text) {
            Some(size) => Ok(size),
            None => Err(ParseError::MalformedLiteral),
        }
    }

    /// Reads a length: a number and its unit.
    pub fn parse_length(&mut self) -> (r: Result<Value, ParseError>)
        ensures
            reads(old(self)@, final(self)@, r, length(old(self)@.input, old(self)@.pos)),
    {
        let size = self.parse_float()?;
        let unit = self.parse_unit()?;
        Ok(Value::Length(size, unit))
    }

    /// The value that names a colour by the word `color`.
    pub fn parse_color_const(&mut self, color: String) -> (r: Result<Value, ParseError>)
        ensures
            final(self)@ == old(self)@,
            match color_name(color@) {
                Some(name) => r is Ok && r->Ok_0@ == ValueView::ColorConstValue(color@, name),
                None => r is Err && r->Err_0 == ParseError::UnexpectedCharacter,
            },
    {
        if text_is(color.as_str(), "red") {
            Ok(Value::ColorConstValue(color, ColorConst::Red))
        } else if text_is(color.as_str(), "green") {
            Ok(Value::ColorConstValue(color, ColorConst::Green))
        } else if text_is(color.as_str(), "blue") {
            Ok(Value::ColorConstValue(color, ColorConst::Blue))
        } else {
            Err(ParseError::UnexpectedCharacter)
        }
    }

    /// Reads a word: the name of a colour, or a keyword.
    pub fn parse_keyword(&mut self) -> (r: Result<Value, ParseError>)
        ensures
            reads(old(self)@, final(self)@, r, keyword(old(self)@.input, old(self)@.pos)),
    {
        let word = self.parse_identifier();
        if text_is(word.as_str(), "green") || text_is(word.as_str(), "red") || text_is(
            word.as_str(),
            "blue",
        ) {
            self.parse_color_const(word)
        } else {
            Ok(Value::Keyword(word))
        }
    }

    /// Reads a value: a length, a colour or a word.
    pub fn parse_value(&mut self) -> (r: Result<Value, ParseError>)
        ensures
            reads(old(self)@, final(self)@, r, value(old(self)@.input, old(self)@.pos)),
    {
        let c = self.scan.next_char()?;
        if is_digit(c) {
            self.parse_length()
        } else if c == '#' {
            self.parse_color()
        } else {
            self.parse_keyword()
        }
    }

    /// Reads a simple selector: a run of class names, ids, `*` and tag
    /// names.
    pub fn parse_simple_selector(&mut self) -> (r: SimpleSelector)
        ensures
            takes(
                old(self)@,
                final(self)@,
                r,
                simple_selector(old(self)@.input, old(self)@.pos),
            ),
    {
        let mut selector = SimpleSelector { tag_name: None, id: None, class: Vec::new() };
        let ghost s = self@.input;
        let ghost start = self@.pos;
        proof {
            use_type_invariant(&self.scan);
            self.scan.lemma_in_bounds();
            assert(selector.class.deep_view() =~= Seq::empty());
        }
        loop
            invariant
                old(self)@ == (Cursor { input: s, pos: start }),
                self@.input == s,
                self@.in_bounds(),
                start <= self@.pos,
                simple_selector(s, start) == further(
                    (self@.pos - start) as nat,
                    simple_selector_from(s, self@.pos, selector@),
                ),
            decreases left(s, self@.pos),
        {
            let ghost at = self@.pos;
            let ghost so_far = selector@;
            let c = match self.scan.next_char() {
                Ok(c) => c,
                Err(_) => {
                    return selector;
                },
            };
            if c == '.' {
                let _ = self.scan.consume_char();
                let name = self.parse_identifier();
                let ghost classes = selector.class.deep_view();
                let ghost word = name@;
                selector.class.push(name);
                assert(selector.class.deep_view() =~= classes.push(word));
            } else if c == '#' {
                let _ = self.scan.consume_char();
                let name = self.parse_identifier();
                selector.id = Some(name);
            } else if c == '*' {
                let _ = self.scan.consume_char();
            } else if valid_identifier_char(c) {
                let name = self.parse_identifier();
                selector.tag_name = Some(name);
            } else {
                return selector;
            }
        }
    }

    /// Reads the selectors of a rule, up to its `{`, and puts the most
    /// specific first.
    pub fn parse_selectors(&mut self) -> (r: Result<Vec<Selector>, ParseError>)
        ensures
            reads(old(self)@, final(self)@, r, selectors(old(self)@.input, old(self)@.pos)),
            r is Ok ==> descending(r->Ok_0.deep_view()),
    {
        let mut sels: Vec<Selector> = Vec::new();
        let ghost s = self@.input;
        let ghost start = self@.pos;
        proof {
            assert(sels.deep_view() =~= Seq::empty());
        }
        loop
            invariant
                old(self)@ == (Cursor { input: s, pos: start }),
                self@.input == s,
                start <= self@.pos,
                selector_list_from(s, start, Seq::empty()) == after(
                    (self@.pos - start) as nat,
                    selector_list_from(s, self@.pos, sels.deep_view()),
                ),
            decreases left(s, self@.pos),
        {
            let ghost list = sels.deep_view();
            let simple = self.parse_simple_selector();
            let ghost one = Selector::Simple(simple).deep_view();
            sels.push(Selector::Simple(simple));
            assert(sels.deep_view() =~= list.push(one));
            self.scan.consume_whitespace();
            let c = self.scan.next_char()?;
            if c == ',' {
                let _ = self.scan.consume_char();
                self.scan.consume_whitespace();
            } else if c == '{' {
                proof {
                    let _ = lemma_most_specific_first_is_stable_sort(sels.deep_view());
                }
                return Ok(sort_by_specificity(sels));
            } else {
                return Err(ParseError::UnexpectedCharacter);
            }
        }
    }

    /// Reads a declaration: a property's name, `:`, a value, `;`.
    pub fn parse_declaration(&mut self) -> (r: Result<Declaration, ParseError>)
        ensures
            reads(old(self)@, final(self)@, r, declaration(old(self)@.input, old(self)@.pos)),
    {
        let property_name = self.parse_identifier();
        self.scan.consume_whitespace();
        self.scan.expect_char(':')?;
        self.scan.consume_whitespace();
        let value = self.parse_value()?;
        self.scan.consume_whitespace();
        self.scan.expect_char(';')?;
        Ok(Declaration { name: property_name, value })
    }

    /// Reads the block of a rule: `{`, its declarations, `}`.
    pub fn parse_declarations(&mut self) -> (r: Result<Vec<Declaration>, ParseError>)
        ensures
            reads(old(self)@, final(self)@, r, declarations(old(self)@.input, old(self)@.pos)),
    {
        let ghost s = self@.input;
        let ghost start = self@.pos;
        self.scan.expect_char('{')?;
        let mut decs: Vec<Declaration> = Vec::new();
        proof {
            assert(decs.deep_view() =~= Seq::empty());
        }
        loop
            invariant
                old(self)@ == (Cursor { input: s, pos: start }),
                self@.input == s,
                start <= self@.pos,
                declarations(s, start) == after(
                    (self@.pos - start) as nat,
                    declaration_list_from(s, self@.pos, decs.deep_view()),
                ),
            decreases left(s, self@.pos),
        {
            self.scan.consume_whitespace();
            if self.scan.next_char()? == '}' {
                let _ = self.scan.consume_char();
                return Ok(decs);
            }
            let ghost list = decs.deep_view();
            let one = self.parse_declaration()?;
            let ghost d = one.deep_view();
            decs.push(one);
            assert(decs.deep_view() =~= list.push(d));
        }
    }

    /// Reads a rule: its selectors and its block.
    pub fn parse_rule(&mut self) -> (r: Result<Rule, ParseError>)
        ensures
            reads(old(self)@, final(self)@, r, rule(old(self)@.input, old(self)@.pos)),
            r is Ok ==> descending(r->Ok_0@.selectors),
    {
        let selectors = self.parse_selectors()?;
        let declarations = self.parse_declarations()?;
        Ok(Rule { selectors, declarations })
    }

    /// Reads rules to the end of the text.
    pub fn parse_rules(&mut self) -> (r: Result<Vec<Rule>, ParseError>)
        ensures
            reads(
                old(self)@,
                final(self)@,
                r,
                rules_from(old(self)@.input, old(self)@.pos, Seq::empty()),
            ),
            r is Ok ==> forall|i: int|
                0 <= i < r->Ok_0.len() ==> descending((#[trigger] r->Ok_0[i])@.selectors),
    {
        let mut rules: Vec<Rule> = Vec::new();
        let ghost s = self@.input;
        let ghost start = self@.pos;
        proof {
            assert(rules.deep_view() =~= Seq::empty());
        }
        loop
            invariant
                old(self)@ == (Cursor { input: s, pos: start }),
                self@.input == s,
                start <= self@.pos,
                rules_from(s, start, Seq::empty()) == after(
                    (self@.pos - start) as nat,
                    rules_from(s, self@.pos, rules.deep_view()),
                ),
                forall|i: int| 0 <= i < rules.len() ==> descending((#[trigger] rules[i])@.selectors),
            decreases left(s, self@.pos),
        {
            self.scan.consume_whitespace();
            if self.scan.eof() {
                return Ok(rules);
            }
            let ghost list = rules.deep_view();
            let one = self.parse_rule()?;
            let ghost r = one.deep_view();
            rules.push(one);
            assert(rules.deep_view() =~= list.push(r));
        }
    }
}

/// Reads a style sheet.
pub fn parse_css(source: String) -> (r: Result<Stylesheet, ParseError>)
    ensures
        yields(r, stylesheet(source@)),
        r is Ok ==> forall|i: int|
            0 <= i < r->Ok_0.rules.len() ==> descending((#[trigger] r->Ok_0.rules[i])@.selectors),
{
    let mut parser = Parser::new(source.as_str());
    let rules = parser.parse_rules()?;
    Ok(Stylesheet { rules })
}

/// Reading the same text twice gives the same: two results of `parse_css`
/// for one text are both errors, and the same error, or both style
/// sheets, and stand for the same rules.
pub proof fn lemma_parse_css_repeatable(
    source: Seq<char>,
    first: Result<Stylesheet, ParseError>,
    second: Result<Stylesheet, ParseError>,
)
    requires
        yields(first, stylesheet(source)),
        yields(second, stylesheet(source)),
    ensures
        first is Ok <==> second is Ok,
        first is Ok ==> first->Ok_0@ == second->Ok_0@,
        first is Err ==> first->Err_0 == second->Err_0,
{
}

} // verus!
