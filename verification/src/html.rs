//! The reader of markup.

use vstd::prelude::*;
use crate::chars::{is_tag_char, is_whitespace, whitespace};
use crate::css::parse_css;
use crate::dom::{comment, doctype, elem, empty, style, text, AttrMap, Node};
use crate::error::{after, yields, ParseError};
use crate::html_grammar;
use crate::html_grammar::{
    attr,
    attr_value,
    attributes_from,
    close_tag,
    comment_len,
    document,
    element,
    lemma_attributes_end,
    markup,
    node,
    nodes_from,
    special,
    style_block,
    style_source_from,
    tag_name_len,
    tagged,
};
use crate::scan::{
    further,
    left,
    lemma_run_by_test,
    reads,
    span,
    takes,
    text_is,
    text_is_ignoring_ascii_case,
    token,
    CharClass,
    Cursor,
    Scanner,
};

verus! {

/// Reads a tree from markup.
pub fn parse_html(source: String) -> (r: Result<Node, ParseError>)
    ensures
        yields(r, document(source@)),
{
    let mut parser = Parser::new(source.as_str());
    let mut nodes = parser.parse_nodes()?;
    if nodes.len() == 1 {
        Ok(nodes.swap_remove(0))
    } else {
        Ok(elem("html".to_owned(), AttrMap::new(), nodes))
    }
}

/// A reader of markup, somewhere in its text.
#[derive(Debug)]
pub struct Parser {
    scan: Scanner,
}

impl View for Parser {
    type V = Cursor;

    closed spec fn view(&self) -> Cursor {
        self.scan@
    }
}

impl Parser {
    /// A reader at the start of `source`.
    pub fn new(source: &str) -> (r: Parser)
        ensures
            r@ == (Cursor { input: source@, pos: 0 }),
    {
        Parser { scan: Scanner::new(source) }
    }

    /// Reads a tag or attribute name, which may be empty.
    pub fn parse_tag_name(&mut self) -> (r: String)
        ensures
            takes(
                old(self)@,
                final(self)@,
                r,
                (
                    span(
                        old(self)@.input,
                        old(self)@.pos,
                        tag_name_len(old(self)@.input, old(self)@.pos),
                    ),
                    tag_name_len(old(self)@.input, old(self)@.pos),
                ),
            ),
    {
        let name = self.scan.consume_while(is_tag_char);
        proof {
            lemma_run_by_test(
                is_tag_char,
                old(self)@.input,
                old(self)@.pos,
                name@.len(),
                CharClass::TagName,
            );
        }
        name
    }

    /// Reads one node: markup or text.
    pub fn parse_node(&mut self) -> (r: Result<Node, ParseError>)
        ensures
            reads(old(self)@, final(self)@, r, node(old(self)@.input, old(self)@.pos)),
        decreases left(old(self)@.input, old(self)@.pos), 2int,
    {
        if self.scan.next_char()? == '<' {
            self.parse_element()
        } else {
            Ok(self.parse_text())
        }
    }

    /// Reads what a `<` starts.
    pub fn parse_element(&mut self) -> (r: Result<Node, ParseError>)
        ensures
            reads(old(self)@, final(self)@, r, element(old(self)@.input, old(self)@.pos)),
        decreases left(old(self)@.input, old(self)@.pos), 1int,
    {
        self.scan.expect_char('<')?;
        if self.scan.next_char()? == '!' {
            self.parse_special_elem()
        } else {
            self.parse_tag_attrs()
        }
    }

    /// Reads an element from its name on: the opening tag, what the
    /// element holds, and the closing tag.
    pub fn parse_tag_attrs(&mut self) -> (r: Result<Node, ParseError>)
        ensures
            reads(old(self)@, final(self)@, r, tagged(old(self)@.input, old(self)@.pos)),
        decreases left(old(self)@.input, old(self)@.pos), 0int,
    {
        let tag_name = self.parse_tag_name();
        let ghost named = self@.pos;
        let attrs = self.parse_attributes()?;
        proof {
            lemma_attributes_end(self@.input, named, Map::empty());
        }
        self.scan.expect_char('>')?;
        if text_is(tag_name.as_str(), "style") {
            return self.parse_style();
        }
        let children = self.parse_nodes()?;
        self.check_close_tag(&tag_name)?;
        Ok(elem(tag_name, attrs, children))
    }

    /// Reads the closing tag of the element `tag_name`.
    pub fn check_close_tag(&mut self, tag_name: &String) -> (r: Result<(), ParseError>)
        ensures
            reads(
                old(self)@,
                final(self)@,
                r,
                close_tag(old(self)@.input, old(self)@.pos, tag_name@),
            ),
    {
        self.scan.expect_char('<')?;
        self.scan.expect_char('/')?;
        let name = self.parse_tag_name();
        if name != *tag_name {
            return Err(ParseError::StructuralMismatch);
        }
        self.scan.expect_char('>')
    }

    /// Reads text up to the next `<`.
    pub fn parse_text(&mut self) -> (r: Node)
        ensures
            reads(
                old(self)@,
                final(self)@,
                Ok::<Node, ParseError>(r),
                html_grammar::text(old(self)@.input, old(self)@.pos),
            ),
    {
        let test = |c: char| -> (b: bool)
            ensures
                b == (c != '<'),
            { c != '<' };
        let data = self.scan.consume_while(test);
        proof {
            lemma_run_by_test(
                test,
                old(self)@.input,
                old(self)@.pos,
                data@.len(),
                CharClass::Except('<'),
            );
        }
        text(data)
    }

    /// Reads what a `!` starts: a document type, a comment, or nothing.
    pub fn parse_special_elem(&mut self) -> (r: Result<Node, ParseError>)
        ensures
            reads(old(self)@, final(self)@, r, special(old(self)@.input, old(self)@.pos)),
    {
        self.scan.expect_char('!')?;
        let c = self.scan.next_char()?;
        if c == 'D' || c == 'd' {
            self.parse_doctype()
        } else if c == '-' {
            self.parse_comment()
        } else {
            Ok(empty())
        }
    }

    /// Reads a comment from its `--` on.
    pub fn parse_comment(&mut self) -> (r: Result<Node, ParseError>)
        ensures
            reads(
                old(self)@,
                final(self)@,
                r,
                html_grammar::comment(old(self)@.input, old(self)@.pos),
            ),
    {
        let ghost s = self@.input;
        let ghost start = self@.pos;
        self.scan.expect_char('-')?;
        self.scan.expect_char('-')?;
        let ghost begin = self@.pos;
        let mut com = String::new();
        proof {
            reveal_strlit("-->");
            assert(com@ =~= s.subrange(begin, begin));
        }
        loop
            invariant
                old(self)@ == (Cursor { input: s, pos: start }),
                self@.input == s,
                self@.in_bounds(),
                "-->"@.len() == 3,
                token(s, start, '-') is Ok,
                token(s, start + 1, '-') is Ok,
                begin == start + 2,
                begin <= self@.pos,
                com@ == s.subrange(begin, self@.pos),
                match comment_len(s, self@.pos) {
                    Some(n) => comment_len(s, begin) == Some((n + self@.pos - begin) as nat),
                    None => comment_len(s, begin) is None,
                },
            decreases left(s, self@.pos),
        {
            if self.scan.starts_with("-->") {
                let _ = self.scan.consume_char();
                let _ = self.scan.consume_char();
                let _ = self.scan.consume_char();
                return Ok(comment(com));
            }
            let ghost at = self@.pos;
            let c = self.scan.consume_char()?;
            com.push(c);
            assert(com@ =~= s.subrange(begin, at + 1));
        }
    }

    /// Reads an attribute: its name, `=`, its value.
    pub fn parse_attr(&mut self) -> (r: Result<(String, String), ParseError>)
        ensures
            reads(old(self)@, final(self)@, r, attr(old(self)@.input, old(self)@.pos)),
    {
        let name = self.parse_tag_name();
        self.scan.expect_char('=')?;
        let value = self.parse_attr_value()?;
        Ok((name, value))
    }

    /// Reads the value of an attribute, between two `"` or two `'`.
    pub fn parse_attr_value(&mut self) -> (r: Result<String, ParseError>)
        ensures
            reads(old(self)@, final(self)@, r, attr_value(old(self)@.input, old(self)@.pos)),
    {
        let open = self.scan.consume_char()?;
        if !(open == '"' || open == '\'') {
            return Err(ParseError::StructuralMismatch);
        }
        let test = |c: char| -> (b: bool)
            ensures
                b == (c != open),
            { c != open };
        let value = self.scan.consume_while(test);
        proof {
            lemma_run_by_test(
                test,
                old(self)@.input,
                old(self)@.pos + 1,
                value@.len(),
                CharClass::Except(open),
            );
        }
        self.scan.expect_char(open)?;
        Ok(value)
    }

    /// Reads the attributes of an opening tag, up to its `>`.
    pub fn parse_attributes(&mut self) -> (r: Result<AttrMap, ParseError>)
        ensures
            reads(
                old(self)@,
                final(self)@,
                r,
                attributes_from(old(self)@.input, old(self)@.pos, Map::empty()),
            ),
    {
        let mut attrs = AttrMap::new();
        let ghost s = self@.input;
        let ghost start = self@.pos;
        loop
            invariant
                old(self)@ == (Cursor { input: s, pos: start }),
                self@.input == s,
                start <= self@.pos,
                attributes_from(s, start, Map::empty()) == after(
                    (self@.pos - start) as nat,
                    attributes_from(s, self@.pos, attrs@),
                ),
            decreases left(s, self@.pos),
        {
            self.scan.consume_whitespace();
            if self.scan.next_char()? == '>' {
                return Ok(attrs);
            }
            let (name, value) = self.parse_attr()?;
            let _ = attrs.insert(name, value);
        }
    }

    /// Reads nodes up to the end of the text or to a closing tag.
    pub fn parse_nodes(&mut self) -> (r: Result<Vec<Node>, ParseError>)
        ensures
            reads(
                old(self)@,
                final(self)@,
                r,
                nodes_from(old(self)@.input, old(self)@.pos, Seq::empty()),
            ),
        decreases left(old(self)@.input, old(self)@.pos), 3int,
    {
        let mut nodes: Vec<Node> = Vec::new();
        let ghost s = self@.input;
        let ghost start = self@.pos;
        proof {
            assert(nodes.deep_view() =~= Seq::empty());
        }
        loop
            invariant
                old(self)@ == (Cursor { input: s, pos: start }),
                self@.input == s,
                start <= self@.pos,
                nodes_from(s, start, Seq::empty()) == after(
                    (self@.pos - start) as nat,
                    nodes_from(s, self@.pos, nodes.deep_view()),
                ),
            decreases left(s, self@.pos),
        {
            self.scan.consume_whitespace();
            if self.scan.eof() || self.scan.starts_with("</") {
                return Ok(nodes);
            }
            let ghost list = nodes.deep_view();
            let one = self.parse_node()?;
            let ghost n = one.deep_view();
            nodes.push(one);
            assert(nodes.deep_view() =~= list.push(n));
        }
    }

    /// Reads a document type from its keyword on.
    pub fn parse_doctype(&mut self) -> (r: Result<Node, ParseError>)
        ensures
            reads(
                old(self)@,
                final(self)@,
                r,
                html_grammar::doctype(old(self)@.input, old(self)@.pos),
            ),
    {
        let word = |c: char| -> (b: bool)
            ensures
                b == !whitespace(c),
            { !is_whitespace(c) };
        let tag = self.scan.consume_while(word);
        proof {
            lemma_run_by_test(
                word,
                old(self)@.input,
                old(self)@.pos,
                tag@.len(),
                CharClass::NonWhitespace,
            );
        }
        if !text_is_ignoring_ascii_case(tag.as_str(), "DOCTYPE") {
            return Err(ParseError::StructuralMismatch);
        }
        self.scan.consume_whitespace();
        let ghost at = self@.pos;
        let rest = |c: char| -> (b: bool)
            ensures
                b == (c != '>'),
            { c != '>' };
        let value = self.scan.consume_while(rest);
        proof {
            lemma_run_by_test(rest, old(self)@.input, at, value@.len(), CharClass::Except('>'));
        }
        self.scan.expect_char('>')?;
        Ok(doctype(value))
    }

    /// Reads the text of a style block, without its whitespace.
    fn style_source(&mut self) -> (r: String)
        ensures
            takes(
                old(self)@,
                final(self)@,
                r,
                style_source_from(old(self)@.input, old(self)@.pos, Seq::empty()),
            ),
    {
        let mut source = String::new();
        let ghost s = self@.input;
        let ghost start = self@.pos;
        loop
            invariant
                old(self)@ == (Cursor { input: s, pos: start }),
                self@.input == s,
                start <= self@.pos,
                style_source_from(s, start, Seq::empty()) == further(
                    (self@.pos - start) as nat,
                    style_source_from(s, self@.pos, source@),
                ),
            decreases left(s, self@.pos),
        {
            self.scan.consume_whitespace();
            if self.scan.eof() || self.scan.starts_with("</") {
                return source;
            }
            match self.scan.consume_char() {
                Ok(c) => {
                    source.push(c);
                },
                Err(_) => {
                    return source;
                },
            }
        }
    }

    /// Reads what a style element holds, as a style sheet, and the
    /// element's closing tag.
    pub fn parse_style(&mut self) -> (r: Result<Node, ParseError>)
        ensures
            reads(old(self)@, final(self)@, r, style_block(old(self)@.input, old(self)@.pos)),
    {
        let source = self.style_source();
        let stylesheet = parse_css(source)?;
        self.check_close_tag(&"style".to_owned())?;
        Ok(style(stylesheet))
    }
}

/// Reading the same text twice gives the same: two results of
/// `parse_html` for one text are both errors, and the same error, or both
/// trees, and stand for the same nodes.
pub proof fn lemma_parse_html_repeatable(
    source: Seq<char>,
    first: Result<Node, ParseError>,
    second: Result<Node, ParseError>,
)
    requires
        yields(first, document(source)),
        yields(second, document(source)),
    ensures
        first is Ok <==> second is Ok,
        first is Ok ==> first->Ok_0@ == second->Ok_0@,
        first is Err ==> first->Err_0 == second->Err_0,
{
}

} // verus!
