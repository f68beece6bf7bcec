//! A page: the tree of its markup and its style sheet, side by side.

use vstd::prelude::*;
use crate::dom::{Node, NodeView};
use crate::stylesheet::{Stylesheet, StylesheetView};

verus! {

#[derive(Debug)]
pub struct Document {
    node: Node,
    stylesheet: Stylesheet,
}

pub struct DocumentView {
    pub node: NodeView,
    pub stylesheet: StylesheetView,
}

impl View for Document {
    type V = DocumentView;

    closed spec fn view(&self) -> DocumentView {
        DocumentView { node: self.node@, stylesheet: self.stylesheet@ }
    }
}

impl DeepView for Document {
    type V = DocumentView;

    open spec fn deep_view(&self) -> DocumentView {
        self.view()
    }
}

/// The page made of a tree and a style sheet.
pub fn new_document(node: Node, stylesheet: Stylesheet) -> (r: Document)
    ensures
        r@ == (DocumentView { node: node@, stylesheet: stylesheet@ }),
{
    Document { node, stylesheet }
}

impl Document {
    /// The page with `node` as its tree.
    pub fn with_node(self, node: Node) -> (r: Document)
        ensures
            r@ == (DocumentView { node: node@, stylesheet: self@.stylesheet }),
    {
        Document { node, stylesheet: self.stylesheet }
    }

    /// The page with `stylesheet` as its style sheet.
    pub fn with_stylesheet(self, stylesheet: Stylesheet) -> (r: Document)
        ensures
            r@ == (DocumentView { node: self@.node, stylesheet: stylesheet@ }),
    {
        Document { node: self.node, stylesheet }
    }

    /// The tree of the page.
    pub fn node(&self) -> (r: &Node)
        ensures
            r@ == self@.node,
    {
        &self.node
    }

    /// The style sheet of the page.
    pub fn stylesheet(&self) -> (r: &Stylesheet)
        ensures
            r@ == self@.stylesheet,
    {
        &self.stylesheet
    }
}

} // verus!
