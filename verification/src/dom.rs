//! The tree that markup is read into.

use vstd::prelude::*;
use crate::stylesheet::{Stylesheet, StylesheetView};

verus! {

/// A node of the tree: what it is, and the nodes below it.
#[derive(Debug)]
pub struct Node {
    pub children: Vec<Node>,
    pub node_type: NodeType,
}

#[derive(Debug)]
pub enum NodeType {
    Text(String),
    Element(ElementData),
    Comment(String),
    Doctype(String),
    Style(Stylesheet),
    /// Stands where nothing was read.
    Empty,
}

#[derive(Debug)]
pub struct ElementData {
    pub tag_name: String,
    pub attr_map: AttrMap,
}

/// The attributes of an element: each name has one value, and the order in
/// which they were written is not kept apart.
#[derive(Debug)]
pub struct AttrMap {
    entries: Vec<(String, String)>,
}

pub struct NodeView {
    pub children: Seq<NodeView>,
    pub node_type: NodeTypeView,
}

pub enum NodeTypeView {
    Text(Seq<char>),
    Element(ElementDataView),
    Comment(Seq<char>),
    Doctype(Seq<char>),
    Style(StylesheetView),
    Empty,
}

pub struct ElementDataView {
    pub tag_name: Seq<char>,
    pub attr_map: Map<Seq<char>, Seq<char>>,
}

impl NodeView {
    /// A node with nothing below it.
    pub open spec fn leaf(node_type: NodeTypeView) -> NodeView {
        NodeView { children: Seq::empty(), node_type }
    }
}

/// The map that a list of names and values writes down, a later value
/// replacing an earlier one of the same name.
pub open spec fn map_of(entries: Seq<(Seq<char>, Seq<char>)>) -> Map<Seq<char>, Seq<char>>
    decreases entries.len(),
{
    if entries.len() == 0 {
        Map::empty()
    } else {
        map_of(entries.drop_last()).insert(entries.last().0, entries.last().1)
    }
}

/// No name occurs twice in the list.
pub open spec fn distinct_names(entries: Seq<(Seq<char>, Seq<char>)>) -> bool {
    forall|i: int, j: int|
        0 <= i < j < entries.len() ==> (#[trigger] entries[i]).0 != (#[trigger] entries[j]).0
}

/// The map of a list without repeated names holds exactly the list's
/// entries, and as many.
pub proof fn lemma_map_of(entries: Seq<(Seq<char>, Seq<char>)>)
    requires
        distinct_names(entries),
    ensures
        map_of(entries).dom().finite(),
        map_of(entries).dom().len() == entries.len(),
        forall|i: int|
            0 <= i < entries.len() ==> map_of(entries).contains_key((#[trigger] entries[i]).0)
                && map_of(entries)[entries[i].0] == entries[i].1,
        forall|k: Seq<char>| #[trigger]
            map_of(entries).contains_key(k) ==> exists|i: int|
                0 <= i < entries.len() && (#[trigger] entries[i]).0 == k,
    decreases entries.len(),
{
    if entries.len() > 0 {
        let front = entries.drop_last();
        let last = entries.last();
        assert(distinct_names(front)) by {
            assert forall|i: int, j: int| 0 <= i < j < front.len() implies (#[trigger] front[i]).0 != (
            #[trigger] front[j]).0 by {
                assert(front[i] == entries[i] && front[j] == entries[j]);
            }
        }
        lemma_map_of(front);
        assert(!map_of(front).contains_key(last.0)) by {
            if map_of(front).contains_key(last.0) {
                let i = choose|i: int| 0 <= i < front.len() && (#[trigger] front[i]).0 == last.0;
                assert(front[i] == entries[i]);
                assert(entries[entries.len() - 1] == last);
            }
        }
        assert forall|i: int| 0 <= i < entries.len() implies map_of(entries).contains_key(
            (#[trigger] entries[i]).0,
        ) && map_of(entries)[entries[i].0] == entries[i].1 by {
            if i < front.len() {
                assert(front[i] == entries[i]);
            }
        }
        assert forall|k: Seq<char>| #[trigger] map_of(entries).contains_key(k) implies exists|i: int|
            0 <= i < entries.len() && (#[trigger] entries[i]).0 == k by {
            if k == last.0 {
                assert(entries[entries.len() - 1].0 == k);
            } else {
                assert(map_of(front).contains_key(k));
                let i = choose|i: int| 0 <= i < front.len() && (#[trigger] front[i]).0 == k;
                assert(front[i] == entries[i]);
            }
        }
    }
}

impl AttrMap {
    /// The names and values as they are kept.
    pub closed spec fn pairs(&self) -> Seq<(Seq<char>, Seq<char>)> {
        self.entries.deep_view()
    }

    /// No name is kept twice.
    #[verifier::type_invariant]
    pub closed spec fn well_formed(&self) -> bool {
        distinct_names(self.entries.deep_view())
    }

    /// An empty map.
    pub fn new() -> (r: AttrMap)
        ensures
            r@ == Map::<Seq<char>, Seq<char>>::empty(),
    {
        let entries: Vec<(String, String)> = Vec::new();
        assert(entries.deep_view() =~= Seq::empty());
        AttrMap { entries }
    }

    /// Where `name` is kept, if it is.
    fn position(&self, name: &String) -> (r: Option<usize>)
        ensures
            match r {
                Some(i) => i < self.entries.len() && self.entries[i as int].0@ == name@,
                None => !self@.contains_key(name@),
            },
    {
        proof {
            use_type_invariant(self);
            lemma_map_of(self.entries.deep_view());
        }
        let mut i: usize = 0;
        while i < self.entries.len()
            invariant
                i <= self.entries.len(),
                forall|k: int| 0 <= k < i ==> (#[trigger] self.entries[k]).0@ != name@,
            decreases self.entries.len() - i,
        {
            if self.entries[i].0 == *name {
                return Some(i);
            }
            i = i + 1;
        }
        proof {
            if self@.contains_key(name@) {
                let pairs = self.entries.deep_view();
                let k = choose|k: int| 0 <= k < pairs.len() && (#[trigger] pairs[k]).0 == name@;
                assert(self.entries[k].0@ != name@);
            }
        }
        None
    }

    /// Gives `name` the value `value`, and returns the value it had.
    pub fn insert(&mut self, name: String, value: String) -> (r: Option<String>)
        ensures
            final(self)@ == old(self)@.insert(name@, value@),
            r.deep_view() == if old(self)@.contains_key(name@) {
                Some(old(self)@[name@])
            } else {
                None
            },
    {
        proof {
            use_type_invariant(&*self);
            lemma_map_of(self.entries.deep_view());
        }
        let ghost before = self.entries.deep_view();
        let ghost key = name@;
        let ghost val = value@;
        let found = self.position(&name);
        let mut entries: Vec<(String, String)> = Vec::new();
        core::mem::swap(&mut entries, &mut self.entries);
        match found {
            Some(i) => {
                let old_entry = entries.remove(i);
                entries.insert(i, (name, value));
                proof {
                    let now = entries.deep_view();
                    assert(now =~= before.update(i as int, (key, val)));
                    assert(distinct_names(now)) by {
                        assert forall|a: int, b: int| 0 <= a < b < now.len() implies (
                        #[trigger] now[a]).0 != (#[trigger] now[b]).0 by {
                            assert(now[a].0 == before[a].0 && now[b].0 == before[b].0);
                        }
                    }
                    lemma_map_of(now);
                    assert(map_of(now) =~= map_of(before).insert(key, val)) by {
                        assert forall|k: Seq<char>|
                            map_of(now).contains_key(k) <==> map_of(before).insert(
                                key,
                                val,
                            ).contains_key(k) by {
                            if map_of(now).contains_key(k) {
                                let a = choose|a: int|
                                    0 <= a < now.len() && (#[trigger] now[a]).0 == k;
                                assert(before[a].0 == k);
                            }
                            if map_of(before).contains_key(k) {
                                let a = choose|a: int|
                                    0 <= a < before.len() && (#[trigger] before[a]).0 == k;
                                assert(now[a].0 == k);
                            }
                            if k == key {
                                assert(now[i as int].0 == k);
                            }
                        }
                        assert forall|k: Seq<char>| map_of(now).contains_key(k) implies map_of(
                            now,
                        )[k] == map_of(before).insert(key, val)[k] by {
                            let a = choose|a: int| 0 <= a < now.len() && (#[trigger] now[a]).0 == k;
                            assert(map_of(now)[now[a].0] == now[a].1);
                            if a != i {
                                assert(now[a] == before[a]);
                                assert(now[a].0 != now[i as int].0);
                                assert(map_of(before)[before[a].0] == before[a].1);
                            } else {
                                assert(now[a] == (key, val));
                            }
                        }
                    }
                    assert(old_entry.1@ == before[i as int].1);
                }
                self.entries = entries;
                Some(old_entry.1)
            },
            None => {
                entries.push((name, value));
                proof {
                    let now = entries.deep_view();
                    assert(now =~= before.push((key, val)));
                    assert(now.drop_last() =~= before);
                    assert(distinct_names(now)) by {
                        assert forall|a: int, b: int| 0 <= a < b < now.len() implies (
                        #[trigger] now[a]).0 != (#[trigger] now[b]).0 by {
                            assert(now[a] == before[a]);
                            if b < before.len() {
                                assert(now[b] == before[b]);
                            } else {
                                assert(map_of(before).contains_key(before[a].0));
                            }
                        }
                    }
                }
                self.entries = entries;
                None
            },
        }
    }

    /// The value of `name`, if it has one.
    pub fn get(&self, name: &str) -> (r: Option<&String>)
        ensures
            match r {
                Some(value) => self@.contains_key(name@) && value@ == self@[name@],
                None => !self@.contains_key(name@),
            },
    {
        proof {
            use_type_invariant(self);
            lemma_map_of(self.entries.deep_view());
        }
        let key = name.to_owned();
        match self.position(&key) {
            Some(i) => {
                assert(self.entries.deep_view()[i as int] == (
                    self.entries[i as int].0@,
                    self.entries[i as int].1@,
                ));
                Some(&self.entries[i].1)
            },
            None => None,
        }
    }

    /// The number of names that have a value.
    pub fn len(&self) -> (r: usize)
        ensures
            self@.dom().finite(),
            r == self@.dom().len(),
    {
        proof {
            use_type_invariant(self);
            lemma_map_of(self.entries.deep_view());
        }
        self.entries.len()
    }
}

impl View for AttrMap {
    type V = Map<Seq<char>, Seq<char>>;

    closed spec fn view(&self) -> Map<Seq<char>, Seq<char>> {
        map_of(self.pairs())
    }
}

impl DeepView for AttrMap {
    type V = Map<Seq<char>, Seq<char>>;

    open spec fn deep_view(&self) -> Map<Seq<char>, Seq<char>> {
        self.view()
    }
}

impl DeepView for ElementData {
    type V = ElementDataView;

    open spec fn deep_view(&self) -> ElementDataView {
        ElementDataView { tag_name: self.tag_name@, attr_map: self.attr_map@ }
    }
}

impl View for ElementData {
    type V = ElementDataView;

    open spec fn view(&self) -> ElementDataView {
        self.deep_view()
    }
}

impl DeepView for NodeType {
    type V = NodeTypeView;

    open spec fn deep_view(&self) -> NodeTypeView {
        match self {
            NodeType::Text(data) => NodeTypeView::Text(data@),
            NodeType::Element(data) => NodeTypeView::Element(data.deep_view()),
            NodeType::Comment(data) => NodeTypeView::Comment(data@),
            NodeType::Doctype(data) => NodeTypeView::Doctype(data@),
            NodeType::Style(sheet) => NodeTypeView::Style(sheet.deep_view()),
            NodeType::Empty => NodeTypeView::Empty,
        }
    }
}

impl View for NodeType {
    type V = NodeTypeView;

    open spec fn view(&self) -> NodeTypeView {
        self.deep_view()
    }
}

impl DeepView for Node {
    type V = NodeView;

    open spec fn deep_view(&self) -> NodeView
        decreases self,
    {
        NodeView {
            children: Seq::new(
                self.children.len() as nat,
                |i: int|
                    if 0 <= i < self.children.len() {
                        self.children[i].deep_view()
                    } else {
                        NodeView::leaf(NodeTypeView::Empty)
                    },
            ),
            node_type: self.node_type.deep_view(),
        }
    }
}

impl View for Node {
    type V = NodeView;

    open spec fn view(&self) -> NodeView {
        self.deep_view()
    }
}

/// A text node.
pub fn text(data: String) -> (r: Node)
    ensures
        r@ == NodeView::leaf(NodeTypeView::Text(data@)),
{
    let r = Node { children: Vec::new(), node_type: NodeType::Text(data) };
    assert(r@.children =~= Seq::empty());
    r
}

/// An element with its attributes and the nodes below it.
pub fn elem(name: String, attrs: AttrMap, children: Vec<Node>) -> (r: Node)
    ensures
        r@ == (NodeView {
            children: children.deep_view(),
            node_type: NodeTypeView::Element(
                ElementDataView { tag_name: name@, attr_map: attrs@ },
            ),
        }),
{
    let r = Node {
        children,
        node_type: NodeType::Element(ElementData { tag_name: name, attr_map: attrs }),
    };
    assert(r@.children =~= children.deep_view());
    r
}

/// A comment node.
pub fn comment(com: String) -> (r: Node)
    ensures
        r@ == NodeView::leaf(NodeTypeView::Comment(com@)),
{
    let r = Node { children: Vec::new(), node_type: NodeType::Comment(com) };
    assert(r@.children =~= Seq::empty());
    r
}

/// A document type node.
pub fn doctype(data: String) -> (r: Node)
    ensures
        r@ == NodeView::leaf(NodeTypeView::Doctype(data@)),
{
    let r = Node { children: Vec::new(), node_type: NodeType::Doctype(data) };
    assert(r@.children =~= Seq::empty());
    r
}

/// The node that stands where nothing was read.
pub fn empty() -> (r: Node)
    ensures
        r@ == NodeView::leaf(NodeTypeView::Empty),
{
    let r = Node { children: Vec::new(), node_type: NodeType::Empty };
    assert(r@.children =~= Seq::empty());
    r
}

/// A node that holds a style sheet.
pub fn style(stylesheet: Stylesheet) -> (r: Node)
    ensures
        r@ == NodeView::leaf(NodeTypeView::Style(stylesheet@)),
{
    let r = Node { children: Vec::new(), node_type: NodeType::Style(stylesheet) };
    assert(r@.children =~= Seq::empty());
    r
}

} // verus!
