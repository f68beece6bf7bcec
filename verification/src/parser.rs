//! Puts a page together from its sources, each read by the reader that
//! its file name asks for.

use vstd::prelude::*;
use crate::css::parse_css;
use crate::css_grammar::stylesheet;
use crate::document::{new_document, Document, DocumentView};
use crate::dom::{empty, NodeTypeView, NodeView};
use crate::error::ParseError;
use crate::html::parse_html;
use crate::html_grammar::document;
use crate::scan::{chars_of, text_is};
use crate::stylesheet::{Stylesheet, StylesheetView};

verus! {

/// The sources of a page, by file name.
#[derive(Debug)]
pub struct ParserPage {
    sources_files_path: Vec<String>,
}

/// The readers that a source can ask for.
#[derive(Clone, Copy, Debug, PartialEq, Eq, Structural)]
pub enum SourceKind {
    Html,
    Css,
}

/// Why no page was put together.
#[derive(Clone, Copy, Debug, PartialEq, Eq, Structural)]
pub enum PageError {
    /// A file name asks for neither reader.
    UnsupportedFileType,
    /// A source came without its text.
    MissingSource,
    /// A source could not be read to its end.
    Parse(ParseError),
}

/// The last position before `upto` at which `c` stands in `s`, or -1 where
/// it stands at none.
pub open spec fn last_index_of(s: Seq<char>, c: char, upto: int) -> int
    decreases upto,
{
    if upto <= 0 || upto > s.len() {
        -1
    } else if s[upto - 1] == c {
        upto - 1
    } else {
        last_index_of(s, c, upto - 1)
    }
}

/// The name of the file that a path leads to: what stands behind its last
/// `/`, or all of it where it has none.
pub open spec fn file_name(path: Seq<char>) -> Seq<char> {
    path.subrange(last_index_of(path, '/', path.len() as int) + 1, path.len() as int)
}

/// The extension of a path: what stands behind the last `.` of its file
/// name. A file name without `.` has none.
pub open spec fn extension(path: Seq<char>) -> Option<Seq<char>> {
    let name = file_name(path);
    let dot = last_index_of(name, '.', name.len() as int);
    if dot < 0 {
        None
    } else {
        Some(name.subrange(dot + 1, name.len() as int))
    }
}

/// The reader that a path asks for: `html` or `css` by its extension, and
/// none for any other path.
pub open spec fn kind_of(path: Seq<char>) -> Option<SourceKind> {
    match extension(path) {
        None => None,
        Some(ext) => if ext == "html"@ {
            Some(SourceKind::Html)
        } else if ext == "css"@ {
            Some(SourceKind::Css)
        } else {
            None
        },
    }
}

/// The page before any source was read: an empty node and a style sheet
/// without rules.
pub open spec fn blank() -> DocumentView {
    DocumentView {
        node: NodeView::leaf(NodeTypeView::Empty),
        stylesheet: StylesheetView { rules: Seq::empty() },
    }
}

/// The page once a source of the kind `kind` with the text `text` is read
/// into it: markup replaces the tree, a style sheet replaces the style
/// sheet, and the other of the two stays.
pub open spec fn with_source(page: DocumentView, kind: SourceKind, text: Seq<char>) -> Result<
    DocumentView,
    PageError,
> {
    match kind {
        SourceKind::Html => match document(text) {
            Err(e) => Err(PageError::Parse(e)),
            Ok(node) => Ok(DocumentView { node, stylesheet: page.stylesheet }),
        },
        SourceKind::Css => match stylesheet(text) {
            Err(e) => Err(PageError::Parse(e)),
            Ok(sheet) => Ok(DocumentView { node: page.node, stylesheet: sheet }),
        },
    }
}

/// The page that the sources from `i` on make of `so_far`. They are taken
/// in order. The first source that asks for no reader, comes without text
/// or cannot be read ends it all.
pub open spec fn page_from(
    paths: Seq<Seq<char>>,
    texts: Seq<Seq<char>>,
    i: int,
    so_far: DocumentView,
) -> Result<DocumentView, PageError>
    decreases paths.len() - i,
{
    if i < 0 || i >= paths.len() {
        Ok(so_far)
    } else {
        match kind_of(paths[i]) {
            None => Err(PageError::UnsupportedFileType),
            Some(kind) => if i >= texts.len() {
                Err(PageError::MissingSource)
            } else {
                match with_source(so_far, kind, texts[i]) {
                    Err(e) => Err(e),
                    Ok(page) => page_from(paths, texts, i + 1, page),
                }
            },
        }
    }
}

/// `last_index_of` gives a position at which `c` stands and behind which,
/// up to `upto`, it stands no more; or -1, and `c` stands nowhere before
/// `upto`.
pub proof fn lemma_last_index_of(s: Seq<char>, c: char, upto: int)
    requires
        0 <= upto <= s.len(),
    ensures
        -1 <= last_index_of(s, c, upto) < upto,
        last_index_of(s, c, upto) >= 0 ==> s[last_index_of(s, c, upto)] == c,
        forall|i: int| last_index_of(s, c, upto) < i < upto ==> #[trigger] s[i] != c,
    decreases upto,
{
    if upto > 0 && s[upto - 1] != c {
        lemma_last_index_of(s, c, upto - 1);
    }
}

/// The extension of a path whose last `.` stands at `dot`, with no `/`
/// behind it, is what stands behind that `.`.
pub proof fn lemma_extension_behind_last_dot(path: Seq<char>, dot: int)
    requires
        0 <= dot < path.len(),
        path[dot] == '.',
        forall|i: int| dot < i < path.len() ==> #[trigger] path[i] != '.' && path[i] != '/',
    ensures
        extension(path) == Some(path.subrange(dot + 1, path.len() as int)),
{
    let n = path.len() as int;
    lemma_last_index_of(path, '/', n);
    let slash = last_index_of(path, '/', n);
    assert(slash < dot) by {
        if slash >= dot {
            assert(path[slash] == '/');
        }
    }
    let name = file_name(path);
    let m = name.len() as int;
    lemma_last_index_of(name, '.', m);
    let found = last_index_of(name, '.', m);
    let at = dot - slash - 1;
    assert(name[at] == '.');
    assert(found == at) by {
        if found > at {
            assert(name[found] == path[slash + 1 + found]);
        }
    }
    assert(name.subrange(found + 1, m) =~= path.subrange(dot + 1, n));
}

/// A path with no `.` behind its last `/`, or with none at all where it
/// has no `/`, has no extension. `from` is where its file name starts.
pub proof fn lemma_no_extension(path: Seq<char>, from: int)
    requires
        0 <= from <= path.len(),
        from > 0 ==> path[from - 1] == '/',
        forall|i: int| from <= i < path.len() ==> #[trigger] path[i] != '.' && path[i] != '/',
    ensures
        extension(path) is None,
{
    let n = path.len() as int;
    lemma_last_index_of(path, '/', n);
    let slash = last_index_of(path, '/', n);
    assert(slash == from - 1) by {
        if slash >= from {
            assert(path[slash] == '/');
        }
    }
    let name = file_name(path);
    let m = name.len() as int;
    lemma_last_index_of(name, '.', m);
    let found = last_index_of(name, '.', m);
    if found >= 0 {
        assert(name[found] == path[from + found]);
    }
}

/// The reader that the file at `path` asks for.
pub fn source_kind(path: &str) -> (r: Result<SourceKind, PageError>)
    ensures
        match kind_of(path@) {
            Some(kind) => r == Ok::<SourceKind, PageError>(kind),
            None => r == Err::<SourceKind, PageError>(PageError::UnsupportedFileType),
        },
{
    let cs = chars_of(path);
    let mut from: usize = cs.len();
    while from > 0 && cs[from - 1] != '.' && cs[from - 1] != '/'
        invariant
            cs@ == path@,
            from <= cs.len(),
            forall|i: int| from <= i < cs.len() ==> #[trigger] cs@[i] != '.' && cs@[i] != '/',
        decreases from,
    {
        from = from - 1;
    }
    if from == 0 || cs[from - 1] == '/' {
        proof {
            lemma_no_extension(path@, from as int);
        }
        return Err(PageError::UnsupportedFileType);
    }
    proof {
        lemma_extension_behind_last_dot(path@, from - 1);
    }
    let mut ext = String::new();
    let mut i: usize = from;
    while i < cs.len()
        invariant
            from <= i <= cs.len(),
            ext@ == cs@.subrange(from as int, i as int),
        decreases cs.len() - i,
    {
        ext.push(cs[i]);
        i = i + 1;
        assert(ext@ =~= cs@.subrange(from as int, i as int));
    }
    if text_is(ext.as_str(), "html") {
        Ok(SourceKind::Html)
    } else if text_is(ext.as_str(), "css") {
        Ok(SourceKind::Css)
    } else {
        Err(PageError::UnsupportedFileType)
    }
}

/// The page before any source is read.
pub fn blank_page() -> (r: Document)
    ensures
        r@ == blank(),
{
    let sheet = Stylesheet { rules: Vec::new() };
    proof {
        assert(sheet@.rules =~= Seq::empty());
    }
    new_document(empty(), sheet)
}

/// Reads one source of the kind `kind` into `page`.
pub fn read_source(page: Document, kind: SourceKind, text: String) -> (r: Result<Document, PageError>)
    ensures
        match with_source(page@, kind, text@) {
            Ok(next) => r is Ok && r->Ok_0@ == next,
            Err(e) => r is Err && r->Err_0 == e,
        },
{
    match kind {
        SourceKind::Html => match parse_html(text) {
            Ok(tree) => Ok(page.with_node(tree)),
            Err(e) => Err(PageError::Parse(e)),
        },
        SourceKind::Css => match parse_css(text) {
            Ok(sheet) => Ok(page.with_stylesheet(sheet)),
            Err(e) => Err(PageError::Parse(e)),
        },
    }
}

impl View for ParserPage {
    type V = Seq<Seq<char>>;

    closed spec fn view(&self) -> Seq<Seq<char>> {
        self.sources_files_path.deep_view()
    }
}

/// The sources named by `sources_files_path`, in that order.
pub fn new_parser(sources_files_path: Vec<String>) -> (r: ParserPage)
    ensures
        r@ == sources_files_path.deep_view(),
{
    ParserPage { sources_files_path }
}

impl ParserPage {
    /// The file names of the sources.
    pub fn sources(&self) -> (r: &Vec<String>)
        ensures
            r.deep_view() == self@,
    {
        &self.sources_files_path
    }

    /// Puts the page together. `contents` holds the text of each source,
    /// in the order of the sources.
    pub fn parse(&self, contents: &Vec<String>) -> (r: Result<Document, PageError>)
        ensures
            match page_from(self@, contents.deep_view(), 0, blank()) {
                Ok(page) => r is Ok && r->Ok_0@ == page,
                Err(e) => r is Err && r->Err_0 == e,
            },
    {
        let mut page = blank_page();
        let mut i: usize = 0;
        while i < self.sources_files_path.len()
            invariant
                i <= self.sources_files_path.len(),
                page_from(self@, contents.deep_view(), 0, blank()) == page_from(
                    self@,
                    contents.deep_view(),
                    i as int,
                    page@,
                ),
            decreases self.sources_files_path.len() - i,
        {
            let kind = source_kind(self.sources_files_path[i].as_str())?;
            if i >= contents.len() {
                return Err(PageError::MissingSource);
            }
            page = read_source(page, kind, contents[i].clone())?;
            i = i + 1;
        }
        Ok(page)
    }
}

} // verus!
