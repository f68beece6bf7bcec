use vstd::prelude::*;
use crate::chars::{digit, is_digit, is_number_char, number_char};
use crate::scan::chars_of;

verus! {

/// A style sheet: its rules, in the order in which they were written.
#[derive(Debug, PartialEq, Eq)]
pub struct Stylesheet {
    pub rules: Vec<Rule>,
}

/// One rule: the selectors it applies to, the most specific first, and its
/// declarations in the order in which they were written.
#[derive(Debug, PartialEq, Eq)]
pub struct Rule {
    pub selectors: Vec<Selector>,
    pub declarations: Vec<Declaration>,
}

/// A selector. There is one kind so far.
#[derive(Debug, PartialEq, Eq)]
pub enum Selector {
    Simple(SimpleSelector),
}

/// A selector without combinators. Each part may be missing; `*` has none.
#[derive(Debug, PartialEq, Eq)]
pub struct SimpleSelector {
    pub tag_name: Option<String>,
    pub id: Option<String>,
    pub class: Vec<String>,
}

/// A property and the value that it is given.
#[derive(Debug, PartialEq, Eq)]
pub struct Declaration {
    pub name: String,
    pub value: Value,
}

/// The value of a declaration.
#[derive(Debug, PartialEq, Eq)]
pub enum Value {
    /// A bare word.
    Keyword(String),
    /// A size: the number as it was written, and its unit.
    Length(Decimal, Unit),
    /// A colour written in hexadecimal digits.
    ColorValue(Color),
    /// A colour written by name: the name as written, and the colour meant.
    ColorConstValue(String, ColorConst),
    PseudoClassValue(PseudoClass),
    PseudoElementValue(PseudoElement),
}

/// The units of a length.
#[derive(Debug, Clone, Copy, PartialEq, Eq, Structural)]
pub enum Unit {
    Px,
}

/// The colours that have a name.
#[derive(Debug, Clone, Copy, PartialEq, Eq, Structural)]
pub enum ColorConst {
    Red,
    Green,
    Blue,
}

/// A colour by its red, green and blue parts and its opacity.
#[derive(Debug, Clone, Copy, PartialEq, Eq, Structural)]
pub struct Color {
    pub r: u8,
    pub g: u8,
    pub b: u8,
    pub a: u8,
}

/// How precisely a selector matches: the number of ids, of classes and of
/// tag names in it, compared in that order.
pub type Specificity = (usize, usize, usize);

/// Kept for pseudo-elements, of which the grammar has none yet: no value of
/// this type can be made.
#[derive(Debug, PartialEq, Eq)]
pub enum PseudoElement {
    Reserved(core::convert::Infallible),
}

/// Kept for pseudo-classes, of which the grammar has none yet: no value of
/// this type can be made.
#[derive(Debug, PartialEq, Eq)]
pub enum PseudoClass {
    Reserved(core::convert::Infallible),
}

/// A text is a decimal number if it is made of digits and at most one
/// point, and has a digit.
pub open spec fn decimal_literal(t: Seq<char>) -> bool {
    &&& forall|i: int| 0 <= i < t.len() ==> number_char(#[trigger] t[i])
    &&& exists|i: int| 0 <= i < t.len() && digit(#[trigger] t[i])
    &&& forall|i: int, j: int| 0 <= i < j < t.len() && #[trigger] t[i] == '.' ==> #[trigger] t[j] != '.'
}

/// A decimal number, kept as it was written.
#[derive(Debug, PartialEq, Eq)]
pub struct Decimal {
    text: String,
}

impl View for Decimal {
    type V = Seq<char>;

    closed spec fn view(&self) -> Seq<char> {
        self.text@
    }
}

impl DeepView for Decimal {
    type V = Seq<char>;

    open spec fn deep_view(&self) -> Seq<char> {
        self.view()
    }
}

impl Decimal {
    #[verifier::type_invariant]
    spec fn is_number(self) -> bool {
        decimal_literal(self.text@)
    }

    /// The number that `text` writes down, if it writes one.
    pub fn new(text: String) -> (r: Option<Decimal>)
        ensures
            match r {
                Some(d) => decimal_literal(text@) && d@ == text@,
                None => !decimal_literal(text@),
            },
    {
        let cs = chars_of(text.as_str());
        let mut i: usize = 0;
        let mut points: usize = 0;
        let mut digits = false;
        let ghost mut point_at: int = 0;
        let ghost mut digit_at: int = 0;
        while i < cs.len()
            invariant
                cs@ == text@,
                i <= cs.len(),
                points <= 1,
                forall|k: int| 0 <= k < i ==> number_char(#[trigger] cs@[k]),
                digits ==> 0 <= digit_at < i && digit(cs@[digit_at]),
                !digits ==> forall|k: int| 0 <= k < i ==> !digit(#[trigger] cs@[k]),
                points == 1 ==> 0 <= point_at < i && cs@[point_at] == '.',
                points == 1 ==> forall|k: int| 0 <= k < i && k != point_at ==> #[trigger] cs@[k] != '.',
                points == 0 ==> forall|k: int| 0 <= k < i ==> #[trigger] cs@[k] != '.',
            decreases cs.len() - i,
        {
            let c = cs[i];
            if !is_number_char(c) {
                return None;
            }
            if is_digit(c) {
                digits = true;
                proof {
                    digit_at = i as int;
                }
            } else {
                if points == 1 {
                    assert(cs@[point_at] == '.' && cs@[i as int] == '.');
                    return None;
                }
                points = 1;
                proof {
                    point_at = i as int;
                }
            }
            i = i + 1;
        }
        if digits {
            Some(Decimal { text })
        } else {
            None
        }
    }

    /// The number as it was written.
    pub fn as_str(&self) -> (r: &str)
        ensures
            r@ == self@,
            decimal_literal(self@),
    {
        proof {
            use_type_invariant(self);
        }
        self.text.as_str()
    }
}

/// The colour that a name stands for. All three are opaque.
pub open spec fn named_color(name: ColorConst) -> Color {
    match name {
        ColorConst::Red => Color { r: 255, g: 0, b: 0, a: 255 },
        ColorConst::Green => Color { r: 0, g: 255, b: 0, a: 255 },
        ColorConst::Blue => Color { r: 0, g: 0, b: 255, a: 255 },
    }
}

pub struct SimpleSelectorView {
    pub tag_name: Option<Seq<char>>,
    pub id: Option<Seq<char>>,
    pub class: Seq<Seq<char>>,
}

pub enum SelectorView {
    Simple(SimpleSelectorView),
}

pub enum ValueView {
    Keyword(Seq<char>),
    Length(Seq<char>, Unit),
    ColorValue(Color),
    ColorConstValue(Seq<char>, ColorConst),
    PseudoClassValue,
    PseudoElementValue,
}

pub struct DeclarationView {
    pub name: Seq<char>,
    pub value: ValueView,
}

pub struct RuleView {
    pub selectors: Seq<SelectorView>,
    pub declarations: Seq<DeclarationView>,
}

pub struct StylesheetView {
    pub rules: Seq<RuleView>,
}

impl SimpleSelectorView {
    /// The selector with no part at all.
    pub open spec fn empty() -> SimpleSelectorView {
        SimpleSelectorView { tag_name: None, id: None, class: Seq::empty() }
    }

    pub open spec fn with_class(self, name: Seq<char>) -> SimpleSelectorView {
        SimpleSelectorView { class: self.class.push(name), ..self }
    }

    pub open spec fn with_id(self, name: Seq<char>) -> SimpleSelectorView {
        SimpleSelectorView { id: Some(name), ..self }
    }

    pub open spec fn with_tag_name(self, name: Seq<char>) -> SimpleSelectorView {
        SimpleSelectorView { tag_name: Some(name), ..self }
    }
}

impl SelectorView {
    /// The numbers of ids, of classes and of tag names in the selector.
    pub open spec fn specificity(self) -> (nat, nat, nat) {
        match self {
            SelectorView::Simple(simple) => (
                if simple.id is Some { 1nat } else { 0nat },
                simple.class.len(),
                if simple.tag_name is Some { 1nat } else { 0nat },
            ),
        }
    }
}

impl DeepView for Unit {
    type V = Unit;

    open spec fn deep_view(&self) -> Unit {
        *self
    }
}

impl DeepView for ColorConst {
    type V = ColorConst;

    open spec fn deep_view(&self) -> ColorConst {
        *self
    }
}

impl DeepView for Color {
    type V = Color;

    open spec fn deep_view(&self) -> Color {
        *self
    }
}

impl DeepView for SimpleSelector {
    type V = SimpleSelectorView;

    open spec fn deep_view(&self) -> SimpleSelectorView {
        SimpleSelectorView {
            tag_name: self.tag_name.deep_view(),
            id: self.id.deep_view(),
            class: self.class.deep_view(),
        }
    }
}

impl View for SimpleSelector {
    type V = SimpleSelectorView;

    open spec fn view(&self) -> SimpleSelectorView {
        self.deep_view()
    }
}

impl DeepView for Selector {
    type V = SelectorView;

    open spec fn deep_view(&self) -> SelectorView {
        match self {
            Selector::Simple(simple) => SelectorView::Simple(simple.deep_view()),
        }
    }
}

impl View for Selector {
    type V = SelectorView;

    open spec fn view(&self) -> SelectorView {
        self.deep_view()
    }
}

impl DeepView for Value {
    type V = ValueView;

    open spec fn deep_view(&self) -> ValueView {
        match self {
            Value::Keyword(word) => ValueView::Keyword(word@),
            Value::Length(size, unit) => ValueView::Length(size@, *unit),
            Value::ColorValue(color) => ValueView::ColorValue(*color),
            Value::ColorConstValue(word, name) => ValueView::ColorConstValue(word@, *name),
            Value::PseudoClassValue(_) => ValueView::PseudoClassValue,
            Value::PseudoElementValue(_) => ValueView::PseudoElementValue,
        }
    }
}

impl View for Value {
    type V = ValueView;

    open spec fn view(&self) -> ValueView {
        self.deep_view()
    }
}

impl DeepView for Declaration {
    type V = DeclarationView;

    open spec fn deep_view(&self) -> DeclarationView {
        DeclarationView { name: self.name@, value: self.value.deep_view() }
    }
}

impl View for Declaration {
    type V = DeclarationView;

    open spec fn view(&self) -> DeclarationView {
        self.deep_view()
    }
}

impl DeepView for Rule {
    type V = RuleView;

    open spec fn deep_view(&self) -> RuleView {
        RuleView {
            selectors: self.selectors.deep_view(),
            declarations: self.declarations.deep_view(),
        }
    }
}

impl View for Rule {
    type V = RuleView;

    open spec fn view(&self) -> RuleView {
        self.deep_view()
    }
}

impl DeepView for Stylesheet {
    type V = StylesheetView;

    open spec fn deep_view(&self) -> StylesheetView {
        StylesheetView { rules: self.rules.deep_view() }
    }
}

impl View for Stylesheet {
    type V = StylesheetView;

    open spec fn view(&self) -> StylesheetView {
        self.deep_view()
    }
}

impl Value {
    /// The colour of a value that names one.
    pub fn to_color(&self) -> (r: Color)
        requires
            self is ColorConstValue,
        ensures
            r == named_color(self->ColorConstValue_1),
    {
        match self {
            Value::ColorConstValue(_, ColorConst::Green) => Color { r: 0, g: 255, b: 0, a: 255 },
            Value::ColorConstValue(_, ColorConst::Blue) => Color { r: 0, g: 0, b: 255, a: 255 },
            _ => Color { r: 255, g: 0, b: 0, a: 255 },
        }
    }
}

impl Selector {
    /// How precisely the selector matches.
    pub fn specificity(&self) -> (r: Specificity)
        ensures
            (r.0 as nat, r.1 as nat, r.2 as nat) == self@.specificity(),
    {
        match self {
            Selector::Simple(simple) => {
                let id_count: usize = if simple.id.is_some() { 1 } else { 0 };
                let tag_name_count: usize = if simple.tag_name.is_some() { 1 } else { 0 };
                (id_count, simple.class.len(), tag_name_count)
            },
        }
    }
}

} // verus!
