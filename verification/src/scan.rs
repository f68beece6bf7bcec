use vstd::prelude::*;
use crate::chars::{
    ascii_lower,
    identifier_char,
    is_whitespace,
    number_char,
    same_ignoring_ascii_case,
    same_letter,
    tag_char,
    whitespace,
};
use crate::error::{ParseError, Parsed};

verus! {

/// The classes of characters that the grammars scan runs of.
pub enum CharClass {
    Whitespace,
    NonWhitespace,
    Identifier,
    TagName,
    Number,
    /// Every character but the one given.
    Except(char),
}

impl CharClass {
    pub open spec fn holds(self, c: char) -> bool {
        match self {
            CharClass::Whitespace => whitespace(c),
            CharClass::NonWhitespace => !whitespace(c),
            CharClass::Identifier => identifier_char(c),
            CharClass::TagName => tag_char(c),
            CharClass::Number => number_char(c),
            CharClass::Except(x) => c != x,
        }
    }
}

/// The length of the longest run of characters of `class` that starts at
/// `pos` in `s`.
pub open spec fn run_len(s: Seq<char>, pos: int, class: CharClass) -> nat
    decreases s.len() - pos,
{
    if 0 <= pos < s.len() && class.holds(s[pos]) {
        1 + run_len(s, pos + 1, class)
    } else {
        0
    }
}

/// Whether `lit` stands in `s` at `pos`.
pub open spec fn starts_with_at(s: Seq<char>, pos: int, lit: Seq<char>) -> bool {
    &&& 0 <= pos
    &&& pos + lit.len() <= s.len()
    &&& s.subrange(pos, pos + lit.len()) == lit
}

/// The `n` characters of `s` from `pos` on.
pub open spec fn span(s: Seq<char>, pos: int, n: nat) -> Seq<char> {
    s.subrange(pos, pos + n)
}

/// The length of the whitespace that starts at `pos`.
pub open spec fn whitespace_len(s: Seq<char>, pos: int) -> nat {
    run_len(s, pos, CharClass::Whitespace)
}

/// Whether `pos` is no position of a character of `s`.
pub open spec fn ended(s: Seq<char>, pos: int) -> bool {
    !(0 <= pos < s.len())
}

/// The number of characters of `s` from `pos` on.
pub open spec fn left(s: Seq<char>, pos: int) -> nat {
    if pos <= s.len() {
        (s.len() - pos) as nat
    } else {
        0
    }
}

/// The fixed character `c`, due at `pos`.
pub open spec fn token(s: Seq<char>, pos: int, c: char) -> Parsed<()> {
    if ended(s, pos) {
        Err(ParseError::EndOfInput)
    } else if s[pos] != c {
        Err(ParseError::StructuralMismatch)
    } else {
        Ok(((), 1))
    }
}

/// What was read, reached after `n` characters that were read before it.
pub open spec fn further<T>(n: nat, r: (T, nat)) -> (T, nat) {
    (r.0, n + r.1)
}

/// A run stays inside the text.
pub proof fn lemma_run_len_bound(s: Seq<char>, pos: int, class: CharClass)
    requires
        0 <= pos <= s.len(),
    ensures
        pos + run_len(s, pos, class) <= s.len(),
    decreases s.len() - pos,
{
    if pos < s.len() && class.holds(s[pos]) {
        lemma_run_len_bound(s, pos + 1, class);
    }
}

/// Every character of a run is of its class, and the character behind it,
/// if there is one, is not.
pub proof fn lemma_run_len_holds(s: Seq<char>, pos: int, class: CharClass)
    requires
        0 <= pos <= s.len(),
    ensures
        forall|i: int| pos <= i < pos + run_len(s, pos, class) ==> class.holds(#[trigger] s[i]),
        pos + run_len(s, pos, class) < s.len() ==> !class.holds(s[pos + run_len(s, pos, class)]),
    decreases s.len() - pos,
{
    if pos < s.len() && class.holds(s[pos]) {
        lemma_run_len_holds(s, pos + 1, class);
    }
}

/// A stretch of characters of one class that cannot be made longer is the
/// run that `run_len` measures.
pub proof fn lemma_run_len_unique(s: Seq<char>, pos: int, class: CharClass, n: nat)
    requires
        0 <= pos,
        pos + n <= s.len(),
        forall|i: int| pos <= i < pos + n ==> class.holds(#[trigger] s[i]),
        pos + n < s.len() ==> !class.holds(s[pos + n]),
    ensures
        run_len(s, pos, class) == n,
    decreases n,
{
    if n > 0 {
        lemma_run_len_unique(s, pos + 1, class, (n - 1) as nat);
    }
}

/// The state of a scanner as the grammars see it: the whole text and the
/// number of characters already read.
pub struct Cursor {
    pub input: Seq<char>,
    pub pos: int,
}

impl Cursor {
    pub open spec fn in_bounds(self) -> bool {
        0 <= self.pos <= self.input.len()
    }

    pub open spec fn at_end(self) -> bool {
        self.pos >= self.input.len()
    }

    /// The same text, `n` characters further on.
    pub open spec fn advanced(self, n: int) -> Cursor {
        Cursor { input: self.input, pos: self.pos + n }
    }
}

/// A scanner went from `before` to `behind` and returned `r`, as the rule
/// with the outcome `expected` asks: on success the value is the rule's and
/// the scanner has taken the rule's characters; on failure the error is the
/// rule's. The text is the same either way.
pub open spec fn reads<T: DeepView>(
    before: Cursor,
    behind: Cursor,
    r: Result<T, ParseError>,
    expected: Parsed<T::V>,
) -> bool {
    &&& behind.input == before.input
    &&& behind.in_bounds()
    &&& match expected {
        Ok((value, n)) => r is Ok && r->Ok_0.deep_view() == value && behind.pos == before.pos + n,
        Err(e) => r is Err && r->Err_0 == e,
    }
}

/// As `reads`, for a rule that cannot fail.
pub open spec fn takes<T: DeepView>(before: Cursor, behind: Cursor, r: T, expected: (T::V, nat)) -> bool {
    &&& behind.input == before.input
    &&& behind.in_bounds()
    &&& r.deep_view() == expected.0
    &&& behind.pos == before.pos + expected.1
}

/// A stretch that a test accepted character by character, and could not
/// make longer, is the run of the class that the test decides.
pub proof fn lemma_run_by_test<F: Fn(char) -> bool>(
    test: F,
    s: Seq<char>,
    pos: int,
    n: nat,
    class: CharClass,
)
    requires
        0 <= pos,
        pos + n <= s.len(),
        forall|c: char, b: bool| call_ensures(test, (c,), b) ==> b == class.holds(c),
        forall|i: int| pos <= i < pos + n ==> call_ensures(test, (#[trigger] s[i],), true),
        pos + n < s.len() ==> call_ensures(test, (s[pos + n],), false),
    ensures
        run_len(s, pos, class) == n,
{
    lemma_run_len_unique(s, pos, class, n);
}

/// `String::push` of the standard library, which appends one character to
/// the end of a string: behind the call the string holds what it held
/// before, and then `c`. This is taken on trust.
pub assume_specification[ String::push ](s: &mut String, c: char)
    ensures
        final(s)@ == old(s)@.push(c),
;

/// The characters of a text, one by one.
pub fn chars_of(text: &str) -> (v: Vec<char>)
    ensures
        v@ == text@,
{
    let mut v: Vec<char> = Vec::new();
    for c in it: text.chars()
        invariant
            v@ == it.seq().take(it.index()),
            it.seq() == text@,
    {
        v.push(c);
    }
    v
}

/// Whether two texts are the same.
pub fn text_is(text: &str, lit: &str) -> (r: bool)
    ensures
        r == (text@ == lit@),
{
    text.to_owned() == lit.to_owned()
}

/// Whether two texts are the same but for the case of their ASCII letters.
pub fn text_is_ignoring_ascii_case(text: &str, lit: &str) -> (r: bool)
    ensures
        r == same_ignoring_ascii_case(text@, lit@),
{
    let a = chars_of(text);
    let b = chars_of(lit);
    if a.len() != b.len() {
        return false;
    }
    let mut i: usize = 0;
    while i < a.len()
        invariant
            a@ == text@,
            b@ == lit@,
            a.len() == b.len(),
            i <= a.len(),
            forall|k: int| 0 <= k < i ==> ascii_lower(#[trigger] a@[k]) == ascii_lower(b@[k]),
        decreases a.len() - i,
    {
        if !same_letter(a[i], b[i]) {
            return false;
        }
        i = i + 1;
    }
    true
}

/// A reader that walks once through a text, character by character, and
/// never goes back.
#[derive(Debug)]
pub struct Scanner {
    pos: usize,
    input: Vec<char>,
}

impl View for Scanner {
    type V = Cursor;

    closed spec fn view(&self) -> Cursor {
        Cursor { input: self.input@, pos: self.pos as int }
    }
}

impl Scanner {
    /// The position lies in the text or at its end.
    #[verifier::type_invariant]
    pub closed spec fn well_formed(self) -> bool {
        self.pos <= self.input.len()
    }

    pub proof fn lemma_in_bounds(self)
        requires
            self.well_formed(),
        ensures
            self@.in_bounds(),
    {
    }

    /// A scanner at the start of `source`.
    pub fn new(source: &str) -> (r: Scanner)
        ensures
            r@ == (Cursor { input: source@, pos: 0 }),
    {
        Scanner { pos: 0, input: chars_of(source) }
    }

    /// Whether everything has been read.
    pub fn eof(&self) -> (r: bool)
        ensures
            r == self@.at_end(),
            self@.in_bounds(),
    {
        proof {
            use_type_invariant(self);
        }
        self.pos >= self.input.len()
    }

    /// The next character, which stays unread.
    pub fn next_char(&self) -> (r: Result<char, ParseError>)
        ensures
            self@.in_bounds(),
            r == if self@.at_end() {
                Err::<char, ParseError>(ParseError::EndOfInput)
            } else {
                Ok::<char, ParseError>(self@.input[self@.pos])
            },
    {
        proof {
            use_type_invariant(self);
        }
        if self.pos >= self.input.len() {
            Err(ParseError::EndOfInput)
        } else {
            Ok(self.input[self.pos])
        }
    }

    /// Reads the next character.
    pub fn consume_char(&mut self) -> (r: Result<char, ParseError>)
        ensures
            old(self)@.in_bounds(),
            if old(self)@.at_end() {
                r == Err::<char, ParseError>(ParseError::EndOfInput) && final(self)@ == old(self)@
            } else {
                r == Ok::<char, ParseError>(old(self)@.input[old(self)@.pos]) && final(self)@
                    == old(self)@.advanced(1)
            },
    {
        proof {
            use_type_invariant(&*self);
        }
        if self.pos >= self.input.len() {
            Err(ParseError::EndOfInput)
        } else {
            let c = self.input[self.pos];
            self.pos = self.pos + 1;
            Ok(c)
        }
    }

    /// Reads characters for as long as `test` accepts them, and returns
    /// them. The run may be empty.
    pub fn consume_while<F: Fn(char) -> bool>(&mut self, test: F) -> (r: String)
        requires
            forall|c: char| call_requires(test, (c,)),
        ensures
            old(self)@.in_bounds(),
            final(self)@ == old(self)@.advanced(r@.len() as int),
            final(self)@.in_bounds(),
            r@ == old(self)@.input.subrange(old(self)@.pos, final(self)@.pos),
            forall|i: int|
                old(self)@.pos <= i < final(self)@.pos ==> call_ensures(
                    test,
                    (#[trigger] old(self)@.input[i],),
                    true,
                ),
            !final(self)@.at_end() ==> call_ensures(
                test,
                (final(self)@.input[final(self)@.pos],),
                false,
            ),
    {
        proof {
            use_type_invariant(&*self);
        }
        let mut result = String::new();
        let start: usize = self.pos;
        while self.pos < self.input.len() && test(self.input[self.pos])
            invariant
                forall|c: char| call_requires(test, (c,)),
                self.input == old(self).input,
                start == old(self).pos,
                start <= self.pos <= self.input.len(),
                result@ == self.input@.subrange(start as int, self.pos as int),
                forall|i: int|
                    start <= i < self.pos ==> call_ensures(test, (#[trigger] self.input@[i],), true),
            decreases self.input.len() - self.pos,
        {
            result.push(self.input[self.pos]);
            self.pos = self.pos + 1;
        }
        result
    }

    /// Reads past a run of whitespace.
    pub fn consume_whitespace(&mut self)
        ensures
            old(self)@.in_bounds(),
            final(self)@ == old(self)@.advanced(
                run_len(old(self)@.input, old(self)@.pos, CharClass::Whitespace) as int,
            ),
            final(self)@.in_bounds(),
            !final(self)@.at_end() ==> !whitespace(final(self)@.input[final(self)@.pos]),
    {
        proof {
            use_type_invariant(&*self);
        }
        let ghost start = self.pos as int;
        while self.pos < self.input.len() && is_whitespace(self.input[self.pos])
            invariant
                self.input == old(self).input,
                start == old(self).pos,
                start <= self.pos <= self.input.len(),
                forall|i: int| start <= i < self.pos ==> whitespace(#[trigger] self.input@[i]),
            decreases self.input.len() - self.pos,
        {
            self.pos = self.pos + 1;
        }
        proof {
            lemma_run_len_unique(
                self.input@,
                start,
                CharClass::Whitespace,
                (self.pos - start) as nat,
            );
        }
    }

    /// Reads the character `c`, which is due.
    pub fn expect_char(&mut self, c: char) -> (r: Result<(), ParseError>)
        ensures
            reads(old(self)@, final(self)@, r, token(old(self)@.input, old(self)@.pos, c)),
    {
        let found = self.consume_char()?;
        if found == c {
            Ok(())
        } else {
            Err(ParseError::StructuralMismatch)
        }
    }

    /// Whether `lit` comes next. Nothing is read.
    pub fn starts_with(&self, lit: &str) -> (r: bool)
        ensures
            self@.in_bounds(),
            r == starts_with_at(self@.input, self@.pos, lit@),
    {
        proof {
            use_type_invariant(self);
        }
        let mut at: usize = self.pos;
        let mut matched = true;
        for c in it: lit.chars()
            invariant
                it.seq() == lit@,
                self.pos <= self.input.len(),
                matched ==> at == self.pos + it.index(),
                matched ==> at <= self.input.len(),
                matched ==> self.input@.subrange(self.pos as int, at as int) == lit@.take(
                    it.index(),
                ),
                !matched ==> !starts_with_at(self.input@, self.pos as int, lit@),
        {
            if matched {
                if at < self.input.len() && self.input[at] == c {
                    at = at + 1;
                    assert(self.input@.subrange(self.pos as int, at as int) =~= lit@.take(
                        it.index() + 1,
                    ));
                } else {
                    matched = false;
                    assert(!starts_with_at(self.input@, self.pos as int, lit@)) by {
                        if starts_with_at(self.input@, self.pos as int, lit@) {
                            assert(self.input@.subrange(
                                self.pos as int,
                                self.pos + lit@.len(),
                            )[it.index()] == lit@[it.index()]);
                        }
                    }
                }
            }
        }
        assert(lit@.take(lit@.len() as int) =~= lit@);
        matched
    }
}

} // verus!
