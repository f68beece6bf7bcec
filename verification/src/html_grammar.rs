//! The grammar of markup, as functions from a text and a position to what
//! is read there.

use vstd::prelude::*;
use crate::chars::{same_ignoring_ascii_case, whitespace};
use crate::css_grammar::stylesheet;
use crate::dom::{ElementDataView, NodeTypeView, NodeView};
use crate::error::{after, ParseError, Parsed};
use crate::scan::{
    ended,
    further,
    left,
    lemma_run_len_bound,
    lemma_run_len_holds,
    run_len,
    span,
    starts_with_at,
    token,
    whitespace_len,
    CharClass,
};

verus! {

/// The length of the tag or attribute name that starts at `pos`; it may be
/// empty.
pub open spec fn tag_name_len(s: Seq<char>, pos: int) -> nat {
    run_len(s, pos, CharClass::TagName)
}

/// The value of an attribute: `"` or `'`, everything up to the same quote,
/// and that quote.
pub open spec fn attr_value(s: Seq<char>, pos: int) -> Parsed<Seq<char>> {
    if ended(s, pos) {
        Err(ParseError::EndOfInput)
    } else if s[pos] != '"' && s[pos] != '\'' {
        Err(ParseError::StructuralMismatch)
    } else {
        let n = run_len(s, pos + 1, CharClass::Except(s[pos]));
        match token(s, pos + 1 + n, s[pos]) {
            Err(e) => Err(e),
            Ok(_) => Ok((span(s, pos + 1, n), n + 2)),
        }
    }
}

/// An attribute: its name, `=`, its value.
pub open spec fn attr(s: Seq<char>, pos: int) -> Parsed<(Seq<char>, Seq<char>)> {
    let n = tag_name_len(s, pos);
    match token(s, pos + n, '=') {
        Err(e) => Err(e),
        Ok(_) => match attr_value(s, pos + n + 1) {
            Err(e) => Err(e),
            Ok((v, k)) => Ok(((span(s, pos, n), v), n + 1 + k)),
        },
    }
}

/// Attributes, each after whitespace, up to a `>`, which is left unread. A
/// later value of a name replaces an earlier one.
pub open spec fn attributes_from(s: Seq<char>, pos: int, so_far: Map<Seq<char>, Seq<char>>) -> Parsed<
    Map<Seq<char>, Seq<char>>,
>
    decreases left(s, pos),
{
    let w = whitespace_len(s, pos);
    if ended(s, pos + w) {
        Err(ParseError::EndOfInput)
    } else if s[pos + w] == '>' {
        Ok((so_far, w))
    } else {
        match attr(s, pos + w) {
            Err(e) => Err(e),
            Ok((a, k)) => after(w + k, attributes_from(s, pos + w + k, so_far.insert(a.0, a.1))),
        }
    }
}

/// Where attributes were read, a `>` comes next.
pub proof fn lemma_attributes_end(s: Seq<char>, pos: int, so_far: Map<Seq<char>, Seq<char>>)
    requires
        0 <= pos,
    ensures
        match attributes_from(s, pos, so_far) {
            Ok((_, k)) => !ended(s, pos + k) && s[pos + k] == '>',
            Err(_) => true,
        },
    decreases left(s, pos),
{
    let w = whitespace_len(s, pos);
    if !ended(s, pos + w) && s[pos + w] != '>' {
        match attr(s, pos + w) {
            Err(_) => {},
            Ok((a, k)) => {
                lemma_attributes_end(s, pos + w + k, so_far.insert(a.0, a.1));
            },
        }
    }
}

/// The closing tag of the element `name`: `</`, the name, `>`.
pub open spec fn close_tag(s: Seq<char>, pos: int, name: Seq<char>) -> Parsed<()> {
    match (token(s, pos, '<'), token(s, pos + 1, '/')) {
        (Err(e), _) => Err(e),
        (_, Err(e)) => Err(e),
        _ => {
            let n = tag_name_len(s, pos + 2);
            if span(s, pos + 2, n) != name {
                Err(ParseError::StructuralMismatch)
            } else {
                match token(s, pos + 2 + n, '>') {
                    Err(e) => Err(e),
                    Ok(_) => Ok(((), n + 3)),
                }
            }
        },
    }
}

/// The number of characters from `pos` to the next `-->`, if one follows.
pub open spec fn comment_len(s: Seq<char>, pos: int) -> Option<nat>
    decreases left(s, pos),
{
    if starts_with_at(s, pos, "-->"@) {
        Some(0)
    } else if ended(s, pos) {
        None
    } else {
        match comment_len(s, pos + 1) {
            Some(n) => Some(n + 1),
            None => None,
        }
    }
}

/// A comment, from its `--` on: the text up to the next `-->`, kept as it
/// stands, and that.
pub open spec fn comment(s: Seq<char>, pos: int) -> Parsed<NodeView> {
    match (token(s, pos, '-'), token(s, pos + 1, '-')) {
        (Err(e), _) => Err(e),
        (_, Err(e)) => Err(e),
        _ => match comment_len(s, pos + 2) {
            None => Err(ParseError::EndOfInput),
            Some(n) => Ok((NodeView::leaf(NodeTypeView::Comment(span(s, pos + 2, n))), 2 + n + 3)),
        },
    }
}

/// A document type, from its keyword on: the word `DOCTYPE` in any case,
/// whitespace, the text up to the next `>`, and that.
pub open spec fn doctype(s: Seq<char>, pos: int) -> Parsed<NodeView> {
    let n = run_len(s, pos, CharClass::NonWhitespace);
    if !same_ignoring_ascii_case(span(s, pos, n), "DOCTYPE"@) {
        Err(ParseError::StructuralMismatch)
    } else {
        let w = whitespace_len(s, pos + n);
        let k = run_len(s, pos + n + w, CharClass::Except('>'));
        match token(s, pos + n + w + k, '>') {
            Err(e) => Err(e),
            Ok(_) => Ok(
                (NodeView::leaf(NodeTypeView::Doctype(span(s, pos + n + w, k))), n + w + k + 1),
            ),
        }
    }
}

/// What `!` starts: a document type before `D` or `d`, a comment before
/// `-`. Before anything else only the `!` is read, and the node is empty.
pub open spec fn special(s: Seq<char>, pos: int) -> Parsed<NodeView> {
    match token(s, pos, '!') {
        Err(e) => Err(e),
        Ok(_) => if ended(s, pos + 1) {
            Err(ParseError::EndOfInput)
        } else if s[pos + 1] == 'D' || s[pos + 1] == 'd' {
            after(1, doctype(s, pos + 1))
        } else if s[pos + 1] == '-' {
            after(1, comment(s, pos + 1))
        } else {
            Ok((NodeView::leaf(NodeTypeView::Empty), 1))
        },
    }
}

/// The text of a style block: every character that is not whitespace, up
/// to the end of the text or to a `</` that stands behind whitespace or
/// behind a character that was taken.
pub open spec fn style_source_from(s: Seq<char>, pos: int, so_far: Seq<char>) -> (Seq<char>, nat)
    decreases left(s, pos),
{
    let w = whitespace_len(s, pos);
    if ended(s, pos + w) || starts_with_at(s, pos + w, "</"@) {
        (so_far, w)
    } else {
        further(w + 1, style_source_from(s, pos + w + 1, so_far.push(s[pos + w])))
    }
}

/// What follows the opening tag of a style element: the block's text,
/// read as a style sheet, and the closing tag.
pub open spec fn style_block(s: Seq<char>, pos: int) -> Parsed<NodeView> {
    let (source, n) = style_source_from(s, pos, Seq::empty());
    match stylesheet(source) {
        Err(e) => Err(e),
        Ok(sheet) => match close_tag(s, pos + n, "style"@) {
            Err(e) => Err(e),
            Ok((_, k)) => Ok((NodeView::leaf(NodeTypeView::Style(sheet)), n + k)),
        },
    }
}

/// Text: everything up to the next `<`.
pub open spec fn text(s: Seq<char>, pos: int) -> Parsed<NodeView> {
    let n = run_len(s, pos, CharClass::Except('<'));
    Ok((NodeView::leaf(NodeTypeView::Text(span(s, pos, n))), n))
}

/// Nodes, each after whitespace, up to the end of the text or to a `</`,
/// which is left unread. `<` starts markup, anything else text.
pub open spec fn nodes_from(s: Seq<char>, pos: int, so_far: Seq<NodeView>) -> Parsed<Seq<NodeView>>
    decreases left(s, pos), 2int,
{
    let w = whitespace_len(s, pos);
    let at = pos + w;
    if ended(s, at) || starts_with_at(s, at, "</"@) {
        Ok((so_far, w))
    } else if s[at] == '<' {
        match markup(s, at + 1) {
            Err(e) => Err(e),
            Ok((node, k)) => after(w + 1 + k, nodes_from(s, at + 1 + k, so_far.push(node))),
        }
    } else {
        let n = run_len(s, at, CharClass::Except('<'));
        after(
            w + n,
            nodes_from(s, at + n, so_far.push(NodeView::leaf(NodeTypeView::Text(span(s, at, n))))),
        )
    }
}

/// What stands behind a `<`: after `!` a document type, a comment or
/// nothing; else an element.
pub open spec fn markup(s: Seq<char>, pos: int) -> Parsed<NodeView>
    decreases left(s, pos), 1int,
{
    if ended(s, pos) {
        Err(ParseError::EndOfInput)
    } else if s[pos] == '!' {
        special(s, pos)
    } else {
        tagged(s, pos)
    }
}

/// An element, from its name on: the name, the attributes, `>`; then for
/// `style` a style block, and for any other name the nodes below it and
/// the closing tag of the same name.
pub open spec fn tagged(s: Seq<char>, pos: int) -> Parsed<NodeView>
    decreases left(s, pos), 0int,
{
    let n = tag_name_len(s, pos);
    let name = span(s, pos, n);
    if ended(s, pos) {
        Err(ParseError::EndOfInput)
    } else {
        match attributes_from(s, pos + n, Map::empty()) {
            Err(e) => Err(e),
            Ok((attrs, k)) => {
                let body = pos + n + k + 1;
                if name == "style"@ {
                    after(n + k + 1, style_block(s, body))
                } else {
                    match nodes_from(s, body, Seq::empty()) {
                        Err(e) => Err(e),
                        Ok((children, m)) => match close_tag(s, body + m, name) {
                            Err(e) => Err(e),
                            Ok((_, c)) => Ok(
                                (
                                    NodeView {
                                        children,
                                        node_type: NodeTypeView::Element(
                                            ElementDataView { tag_name: name, attr_map: attrs },
                                        ),
                                    },
                                    n + k + 1 + m + c,
                                ),
                            ),
                        },
                    }
                }
            },
        }
    }
}

/// An element or what else `<` starts, with its `<`.
pub open spec fn element(s: Seq<char>, pos: int) -> Parsed<NodeView> {
    match token(s, pos, '<') {
        Err(e) => Err(e),
        Ok(_) => after(1, markup(s, pos + 1)),
    }
}

/// One node: markup if `<` comes first, else text.
pub open spec fn node(s: Seq<char>, pos: int) -> Parsed<NodeView> {
    if ended(s, pos) {
        Err(ParseError::EndOfInput)
    } else if s[pos] == '<' {
        element(s, pos)
    } else {
        text(s, pos)
    }
}

/// The root that a list of nodes is handed out under: a single node is
/// the root itself; any other number is put below an `html` element
/// without attributes.
pub open spec fn root_of(nodes: Seq<NodeView>) -> NodeView {
    if nodes.len() == 1 {
        nodes[0]
    } else {
        NodeView {
            children: nodes,
            node_type: NodeTypeView::Element(
                ElementDataView { tag_name: "html"@, attr_map: Map::empty() },
            ),
        }
    }
}

/// The tree that a text writes down.
pub open spec fn document(s: Seq<char>) -> Result<NodeView, ParseError> {
    match nodes_from(s, 0, Seq::empty()) {
        Ok((nodes, _)) => Ok(root_of(nodes)),
        Err(e) => Err(e),
    }
}

/// No character of `t` is whitespace.
pub open spec fn without_whitespace(t: Seq<char>) -> bool {
    forall|i: int| 0 <= i < t.len() ==> !whitespace(#[trigger] t[i])
}

/// The text of a style block holds no whitespace, if what was taken
/// before held none.
pub proof fn lemma_style_source_has_no_whitespace(s: Seq<char>, pos: int, so_far: Seq<char>)
    requires
        0 <= pos,
        without_whitespace(so_far),
    ensures
        without_whitespace(style_source_from(s, pos, so_far).0),
    decreases left(s, pos),
{
    let w = whitespace_len(s, pos);
    if !(ended(s, pos + w) || starts_with_at(s, pos + w, "</"@)) {
        lemma_run_len_bound(s, pos, CharClass::Whitespace);
        lemma_run_len_holds(s, pos, CharClass::Whitespace);
        let next = so_far.push(s[pos + w]);
        assert(!whitespace(s[pos + w]));
        assert forall|i: int| 0 <= i < next.len() implies !whitespace(#[trigger] next[i]) by {
            if i < so_far.len() {
                assert(next[i] == so_far[i]);
            }
        }
        lemma_style_source_has_no_whitespace(s, pos + w + 1, next);
        assert(style_source_from(s, pos, so_far).0 == style_source_from(s, pos + w + 1, next).0);
    } else {
        assert(style_source_from(s, pos, so_far).0 == so_far);
    }
}

/// The test that a character passes if it is no whitespace.
pub open spec fn not_whitespace() -> spec_fn(char) -> bool {
    |c: char| !whitespace(c)
}

/// A text of whitespace alone has no other characters.
pub proof fn lemma_whitespace_filters_to_nothing(t: Seq<char>)
    requires
        forall|i: int| 0 <= i < t.len() ==> whitespace(#[trigger] t[i]),
    ensures
        t.filter(not_whitespace()) == Seq::<char>::empty(),
    decreases t.len(),
{
    reveal(Seq::filter);
    if t.len() > 0 {
        let front = t.drop_last();
        assert forall|i: int| 0 <= i < front.len() implies whitespace(#[trigger] front[i]) by {
            assert(front[i] == t[i]);
        }
        lemma_whitespace_filters_to_nothing(front);
        assert(whitespace(t[t.len() - 1]));
    } else {
        assert(t =~= Seq::<char>::empty());
    }
}

/// What `style_source_from` takes is the stretch from `pos` to `end`, the
/// first place from `pos` on where `</` stands, or the end of the text
/// where it stands nowhere; and what it adds to `so_far` is that stretch's
/// characters in their order, without the whitespace ones.
pub proof fn lemma_style_source_from(s: Seq<char>, pos: int, so_far: Seq<char>) -> (end: int)
    requires
        0 <= pos <= s.len(),
    ensures
        pos <= end <= s.len(),
        end == s.len() || starts_with_at(s, end, "</"@),
        forall|q: int| pos <= q < end ==> !starts_with_at(s, q, "</"@),
        style_source_from(s, pos, so_far) == (
            so_far + s.subrange(pos, end).filter(not_whitespace()),
            (end - pos) as nat,
        ),
    decreases left(s, pos),
{
    reveal_strlit("</");
    let w = whitespace_len(s, pos);
    let at = pos + w;
    lemma_run_len_bound(s, pos, CharClass::Whitespace);
    lemma_run_len_holds(s, pos, CharClass::Whitespace);
    let blank = s.subrange(pos, at);
    assert forall|i: int| 0 <= i < blank.len() implies whitespace(#[trigger] blank[i]) by {
        assert(blank[i] == s[pos + i]);
    }
    lemma_whitespace_filters_to_nothing(blank);
    assert forall|q: int| pos <= q < at implies !starts_with_at(s, q, "</"@) by {
        if starts_with_at(s, q, "</"@) {
            assert(s.subrange(q, q + 2)[0] == s[q]);
            assert(whitespace(s[q]));
        }
    }
    if ended(s, at) || starts_with_at(s, at, "</"@) {
        assert(so_far + blank.filter(not_whitespace()) =~= so_far);
        at
    } else {
        let c = s[at];
        let end = lemma_style_source_from(s, at + 1, so_far.push(c));
        let one = seq![c];
        let rest = s.subrange(at + 1, end);
        assert(one.filter(not_whitespace()) =~= one) by {
            reveal_with_fuel(Seq::filter, 2);
            assert(one.drop_last() =~= Seq::<char>::empty());
            assert(one.last() == c);
            assert(not_whitespace()(c));
        }
        assert(s.subrange(pos, end) =~= (blank + one) + rest);
        Seq::filter_distributes_over_add(blank + one, rest, not_whitespace());
        Seq::filter_distributes_over_add(blank, one, not_whitespace());
        assert(so_far.push(c) + rest.filter(not_whitespace()) =~= so_far + s.subrange(
            pos,
            end,
        ).filter(not_whitespace()));
        end
    }
}

/// The text of a style block is the block's characters up to the first
/// `</`, or to the end of the text where there is none, in their order and
/// without the whitespace ones. `end` is where the block ends.
pub proof fn lemma_style_source_is_the_block_without_whitespace(s: Seq<char>, pos: int) -> (end: int)
    requires
        0 <= pos <= s.len(),
    ensures
        pos <= end <= s.len(),
        end == s.len() || starts_with_at(s, end, "</"@),
        forall|q: int| pos <= q < end ==> !starts_with_at(s, q, "</"@),
        style_source_from(s, pos, Seq::empty()) == (
            s.subrange(pos, end).filter(not_whitespace()),
            (end - pos) as nat,
        ),
{
    let end = lemma_style_source_from(s, pos, Seq::empty());
    assert(Seq::<char>::empty() + s.subrange(pos, end).filter(not_whitespace()) =~= s.subrange(
        pos,
        end,
    ).filter(not_whitespace()));
    end
}

/// A style element holds the style sheet that its text writes down once
/// all whitespace is taken out of it: the same sheet, or the same error,
/// that reading that text by itself gives.
pub proof fn lemma_style_block_reads_its_source(s: Seq<char>, pos: int)
    requires
        0 <= pos,
    ensures
        without_whitespace(style_source_from(s, pos, Seq::empty()).0),
        match stylesheet(style_source_from(s, pos, Seq::empty()).0) {
            Ok(sheet) => match style_block(s, pos) {
                Ok((node, _)) => node == NodeView::leaf(NodeTypeView::Style(sheet)),
                Err(_) => close_tag(
                    s,
                    pos + style_source_from(s, pos, Seq::empty()).1,
                    "style"@,
                ) is Err,
            },
            Err(e) => style_block(s, pos) == Err::<(NodeView, nat), ParseError>(e),
        },
{
    lemma_style_source_has_no_whitespace(s, pos, Seq::empty());
}

} // verus!
