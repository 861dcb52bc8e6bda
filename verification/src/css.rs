//! Style sheets: rules, selectors, declarations and values.

use vstd::prelude::*;
use crate::fixed::{Fixed, SCALE};
use crate::text::{chars_of, lemma_run_end, run_end, string_of, CharClass};

verus! {

/// An ordered list of rules.
#[derive(Debug)]
pub struct Stylesheet {
    pub rules: Vec<Rule>,
}

/// Selectors together with the declarations that apply where one of them matches.
#[derive(Debug)]
pub struct Rule {
    pub selectors: Vec<Selector>,
    pub declarations: Vec<Declaration>,
}

/// What decides where a rule applies.
#[derive(Debug)]
pub enum Selector {
    Simple(SimpleSelector),
}

/// A selector made of an optional tag name, an optional id and any number of classes.
#[derive(Debug)]
pub struct SimpleSelector {
    pub tag_name: Option<String>,
    pub id: Option<String>,
    pub class: Vec<String>,
}

/// One `name: value` pair.
#[derive(Debug)]
pub struct Declaration {
    pub name: String,
    pub value: Value,
}

/// The value of a declaration: a keyword, a number with its unit, or a colour.
#[derive(Debug, PartialEq)]
pub enum Value {
    Keyword(String),
    Length(Fixed, Unit),
    ColorValue(Color),
}

/// The unit of a length.
#[derive(Debug, Clone, Copy, PartialEq, Eq, Structural)]
pub enum Unit {
    Px,
}

/// A colour with red, green, blue and alpha channels.
#[derive(Debug, Clone, Copy, PartialEq, Eq, Structural)]
pub struct Color {
    pub r: u8,
    pub g: u8,
    pub b: u8,
    pub a: u8,
}

/// Counts of ids, classes and tag names in a selector. Compared from left to right; the
/// greater one wins.
pub type Specificity = (usize, usize, usize);

/// Model of a [`Value`].
pub enum ValueView {
    Keyword(Seq<char>),
    Length(Fixed, Unit),
    ColorValue(Color),
}

/// Model of a [`SimpleSelector`].
pub struct SimpleSelectorView {
    pub tag_name: Option<Seq<char>>,
    pub id: Option<Seq<char>>,
    pub class: Seq<Seq<char>>,
}

/// Model of a [`Declaration`].
pub struct DeclarationView {
    pub name: Seq<char>,
    pub value: ValueView,
}

/// Model of a [`Rule`].
pub struct RuleView {
    pub selectors: Seq<SimpleSelectorView>,
    pub declarations: Seq<DeclarationView>,
}

/// Model of a [`Stylesheet`].
pub struct StylesheetView {
    pub rules: Seq<RuleView>,
}

/// The model of an optional string.
pub open spec fn opt_str_view(s: Option<String>) -> Option<Seq<char>> {
    match s {
        Some(t) => Some(t@),
        None => None,
    }
}

impl View for Value {
    type V = ValueView;

    open spec fn view(&self) -> ValueView {
        match *self {
            Value::Keyword(s) => ValueView::Keyword(s@),
            Value::Length(n, u) => ValueView::Length(n, u),
            Value::ColorValue(c) => ValueView::ColorValue(c),
        }
    }
}

impl View for SimpleSelector {
    type V = SimpleSelectorView;

    open spec fn view(&self) -> SimpleSelectorView {
        SimpleSelectorView {
            tag_name: opt_str_view(self.tag_name),
            id: opt_str_view(self.id),
            class: self.class@.map_values(|s: String| s@),
        }
    }
}

impl View for Selector {
    type V = SimpleSelectorView;

    open spec fn view(&self) -> SimpleSelectorView {
        match *self {
            Selector::Simple(s) => s@,
        }
    }
}

impl View for Declaration {
    type V = DeclarationView;

    open spec fn view(&self) -> DeclarationView {
        DeclarationView { name: self.name@, value: self.value@ }
    }
}

impl View for Rule {
    type V = RuleView;

    open spec fn view(&self) -> RuleView {
        RuleView {
            selectors: self.selectors@.map_values(|s: Selector| s@),
            declarations: self.declarations@.map_values(|d: Declaration| d@),
        }
    }
}

impl View for Stylesheet {
    type V = StylesheetView;

    open spec fn view(&self) -> StylesheetView {
        StylesheetView { rules: self.rules@.map_values(|r: Rule| r@) }
    }
}

/// Specificities as triples of integers, ordered from left to right.
pub open spec fn specificity_lt(a: (int, int, int), b: (int, int, int)) -> bool {
    a.0 < b.0 || (a.0 == b.0 && (a.1 < b.1 || (a.1 == b.1 && a.2 < b.2)))
}

/// The integers of a [`Specificity`].
pub open spec fn specificity_ints(s: Specificity) -> (int, int, int) {
    (s.0 as int, s.1 as int, s.2 as int)
}

impl SimpleSelectorView {
    /// One for an id, the number of classes, one for a tag name.
    pub open spec fn specificity(self) -> (int, int, int) {
        (
            if self.id is Some { 1int } else { 0int },
            self.class.len() as int,
            if self.tag_name is Some { 1int } else { 0int },
        )
    }
}

impl ValueView {
    /// The number of a length; 0 for anything else.
    pub open spec fn to_px(self) -> Fixed {
        match self {
            ValueView::Length(n, Unit::Px) => n,
            _ => Fixed(0),
        }
    }

    /// Whether this is the keyword `word`.
    pub open spec fn is_keyword(self, word: Seq<char>) -> bool {
        self == ValueView::Keyword(word)
    }
}

impl Selector {
    /// How specific the selector is: one for an id, the number of classes, one for a tag
    /// name.
    pub fn specificity(&self) -> (r: Specificity)
        ensures
            specificity_ints(r) == self@.specificity(),
    {
        match self {
            Selector::Simple(simple) => {
                let a: usize = if simple.id.is_some() { 1 } else { 0 };
                let b: usize = simple.class.len();
                let c: usize = if simple.tag_name.is_some() { 1 } else { 0 };
                (a, b, c)
            },
        }
    }
}

/// Whether `a` ranks strictly below `b`.
pub fn specificity_less(a: &Specificity, b: &Specificity) -> (r: bool)
    ensures
        r == specificity_lt(specificity_ints(*a), specificity_ints(*b)),
{
    a.0 < b.0 || (a.0 == b.0 && (a.1 < b.1 || (a.1 == b.1 && a.2 < b.2)))
}

impl Value {
    /// The number of a length; 0 for anything else.
    pub fn to_px(&self) -> (r: Fixed)
        ensures
            r == self@.to_px(),
    {
        match self {
            Value::Length(n, Unit::Px) => *n,
            _ => Fixed(0),
        }
    }

    /// Whether this is the keyword `word`.
    pub fn is_keyword(&self, word: &str) -> (r: bool)
        ensures
            r == self@.is_keyword(word@),
    {
        match self {
            Value::Keyword(s) => crate::text::str_eq(s.as_str(), word),
            _ => false,
        }
    }
}

impl Clone for Value {
    fn clone(&self) -> (r: Value)
        ensures
            r == *self,
    {
        match self {
            Value::Keyword(s) => Value::Keyword(s.clone()),
            Value::Length(n, u) => Value::Length(*n, *u),
            Value::ColorValue(c) => Value::ColorValue(*c),
        }
    }
}

/// The selector that starts at `pos`, added to `acc`, and where it ends. `#name` sets
/// the id, `.name` adds a class, `*` adds nothing, and a bare name sets the tag name; the
/// selector ends before the first character that begins none of these.
pub open spec fn spec_simple_selector(input: Seq<char>, pos: int, acc: SimpleSelectorView) -> (
    SimpleSelectorView,
    int,
)
    decreases input.len() - pos,
{
    if pos < 0 || pos >= input.len() {
        (acc, pos)
    } else {
        let c = input[pos];
        let after = run_end(input, pos + 1, CharClass::Identifier);
        proof {
            lemma_run_end(input, pos + 1, CharClass::Identifier);
        }
        if c == '#' {
            spec_simple_selector(
                input,
                after,
                SimpleSelectorView { id: Some(input.subrange(pos + 1, after)), ..acc },
            )
        } else if c == '.' {
            spec_simple_selector(
                input,
                after,
                SimpleSelectorView { class: acc.class.push(input.subrange(pos + 1, after)), ..acc },
            )
        } else if c == '*' {
            spec_simple_selector(input, pos + 1, acc)
        } else if CharClass::Identifier.holds(c) {
            spec_simple_selector(
                input,
                after,
                SimpleSelectorView { tag_name: Some(input.subrange(pos, after)), ..acc },
            )
        } else {
            (acc, pos)
        }
    }
}

/// Where `x` goes into `sorted` so that it follows all that are at least as specific:
/// the first place from `from` on that holds a less specific selector.
pub open spec fn insert_place(sorted: Seq<SimpleSelectorView>, x: SimpleSelectorView, from: int)
    -> int
    decreases sorted.len() - from,
{
    if 0 <= from < sorted.len() && !specificity_lt(sorted[from].specificity(), x.specificity()) {
        insert_place(sorted, x, from + 1)
    } else {
        from
    }
}

/// The selectors of `s`, the most specific first; those of equal specificity keep their
/// order.
pub open spec fn sort_selectors(s: Seq<SimpleSelectorView>) -> Seq<SimpleSelectorView>
    decreases s.len(),
{
    if s.len() == 0 {
        s
    } else {
        let sorted = sort_selectors(s.drop_last());
        sorted.insert(insert_place(sorted, s.last(), 0), s.last())
    }
}

/// No selector of `s` is less specific than a later one.
pub open spec fn descending(s: Seq<SimpleSelectorView>) -> bool {
    forall|i: int, j: int|
        0 <= i < j < s.len() ==> !specificity_lt(
            (#[trigger] s[i]).specificity(),
            (#[trigger] s[j]).specificity(),
        )
}

/// The place where a selector goes in lies after all that are at least as specific and
/// before one that is less specific.
pub proof fn lemma_insert_place(sorted: Seq<SimpleSelectorView>, x: SimpleSelectorView, from: int)
    requires
        0 <= from <= sorted.len(),
    ensures
        from <= insert_place(sorted, x, from) <= sorted.len(),
        forall|k: int|
            from <= k < insert_place(sorted, x, from) ==> !specificity_lt(
                (#[trigger] sorted[k]).specificity(),
                x.specificity(),
            ),
        insert_place(sorted, x, from) < sorted.len() ==> specificity_lt(
            sorted[insert_place(sorted, x, from)].specificity(),
            x.specificity(),
        ),
    decreases sorted.len() - from,
{
    if from < sorted.len() && !specificity_lt(sorted[from].specificity(), x.specificity()) {
        lemma_insert_place(sorted, x, from + 1);
    }
}

/// Sorting keeps the number of selectors and puts them in descending order.
pub proof fn lemma_sort_selectors_descending(s: Seq<SimpleSelectorView>)
    ensures
        sort_selectors(s).len() == s.len(),
        descending(sort_selectors(s)),
    decreases s.len(),
{
    if s.len() > 0 {
        let before = sort_selectors(s.drop_last());
        let x = s.last();
        let place = insert_place(before, x, 0);
        lemma_sort_selectors_descending(s.drop_last());
        lemma_insert_place(before, x, 0);
        let after = before.insert(place, x);
        assert forall|i: int, j: int| 0 <= i < j < after.len() implies !specificity_lt(
            (#[trigger] after[i]).specificity(),
            (#[trigger] after[j]).specificity(),
        ) by {
            if j < place {
                assert(after[i] == before[i] && after[j] == before[j]);
            } else if j == place {
                assert(after[i] == before[i] && after[j] == x);
            } else if i < place {
                assert(after[i] == before[i] && after[j] == before[j - 1]);
            } else if i == place {
                assert(after[i] == x && after[j] == before[j - 1]);
                if j - 1 > place {
                    assert(!specificity_lt(
                        before[place].specificity(),
                        before[j - 1].specificity(),
                    ));
                }
            } else {
                assert(after[i] == before[i - 1] && after[j] == before[j - 1]);
            }
        }
    }
}

/// The list of selectors from `pos` up to the `{` that follows it, added to `acc`, and
/// the place of the `{`. Selectors are separated by commas; the list comes out sorted,
/// see [`sort_selectors`].
pub open spec fn spec_selectors(input: Seq<char>, pos: int, acc: Seq<SimpleSelectorView>)
    -> Option<(Seq<SimpleSelectorView>, int)>
    decreases input.len() - pos,
{
    if pos < 0 || pos > input.len() {
        None
    } else {
        let empty = SimpleSelectorView { tag_name: None, id: None, class: Seq::empty() };
        let (selector, end) = spec_simple_selector(input, pos, empty);
        let mark = run_end(input, end, CharClass::Whitespace);
        let next = run_end(input, mark + 1, CharClass::Whitespace);
        proof {
            lemma_simple_selector_end(input, pos, empty);
            lemma_run_end(input, end, CharClass::Whitespace);
            if mark < input.len() {
                lemma_run_end(input, mark + 1, CharClass::Whitespace);
            }
        }
        if mark >= input.len() {
            None
        } else if input[mark] == ',' {
            spec_selectors(input, next, acc.push(selector))
        } else if input[mark] == '{' {
            Some((sort_selectors(acc.push(selector)), mark))
        } else {
            None
        }
    }
}

/// A selector ends at or after its start, and within the input.
pub proof fn lemma_simple_selector_end(input: Seq<char>, pos: int, acc: SimpleSelectorView)
    requires
        0 <= pos <= input.len(),
    ensures
        pos <= spec_simple_selector(input, pos, acc).1 <= input.len(),
    decreases input.len() - pos,
{
    if pos < input.len() {
        let c = input[pos];
        let after = run_end(input, pos + 1, CharClass::Identifier);
        lemma_run_end(input, pos + 1, CharClass::Identifier);
        if c == '#' {
            lemma_simple_selector_end(
                input,
                after,
                SimpleSelectorView { id: Some(input.subrange(pos + 1, after)), ..acc },
            );
        } else if c == '.' {
            lemma_simple_selector_end(
                input,
                after,
                SimpleSelectorView { class: acc.class.push(input.subrange(pos + 1, after)), ..acc },
            );
        } else if c == '*' {
            lemma_simple_selector_end(input, pos + 1, acc);
        } else if CharClass::Identifier.holds(c) {
            lemma_simple_selector_end(
                input,
                after,
                SimpleSelectorView { tag_name: Some(input.subrange(pos, after)), ..acc },
            );
        }
    }
}

/// The value of a decimal digit.
pub open spec fn digit_value(c: char) -> int {
    c as int - '0' as int
}

/// The number that a row of decimal digits writes; 0 for none.
pub open spec fn digits_value(s: Seq<char>) -> int
    decreases s.len(),
{
    if s.len() == 0 {
        0
    } else {
        digits_value(s.drop_last()) * 10 + digit_value(s.last())
    }
}

/// The thousandths that the digits after a decimal point write; digits past the third
/// are dropped.
pub open spec fn thousandths(s: Seq<char>) -> int {
    (if s.len() > 0 { digit_value(s[0]) * 100 } else { 0 })
        + (if s.len() > 1 { digit_value(s[1]) * 10 } else { 0 })
        + (if s.len() > 2 { digit_value(s[2]) } else { 0 })
}

/// The number that `input[start..end]` writes, where that is a run of digits and points:
/// digits, then at most one point and more digits. `None` where there is a second point.
pub open spec fn spec_number(input: Seq<char>, start: int, end: int) -> Option<Fixed> {
    let point = run_end(input, start, CharClass::Digit);
    let whole = digits_value(input.subrange(start, point)) * (SCALE as int);
    if point >= end {
        Some(Fixed::of(whole))
    } else if run_end(input, point + 1, CharClass::Digit) != end {
        None
    } else {
        Some(Fixed::of(whole + thousandths(input.subrange(point + 1, end))))
    }
}

/// The value of a hexadecimal digit.
pub open spec fn hex_value(c: char) -> Option<int> {
    if '0' <= c <= '9' {
        Some(c as int - '0' as int)
    } else if 'a' <= c <= 'f' {
        Some(c as int - 'a' as int + 10)
    } else if 'A' <= c <= 'F' {
        Some(c as int - 'A' as int + 10)
    } else {
        None
    }
}

/// The byte that the two characters at `pos` write: two hexadecimal digits, or a `+` and
/// one.
pub open spec fn spec_hex_pair(input: Seq<char>, pos: int) -> Option<u8> {
    if pos < 0 || pos + 2 > input.len() {
        None
    } else {
        match (hex_value(input[pos]), hex_value(input[pos + 1])) {
            (Some(high), Some(low)) => Some((high * 16 + low) as u8),
            (None, Some(low)) => if input[pos] == '+' {
                Some(low as u8)
            } else {
                None
            },
            _ => None,
        }
    }
}

/// Whether `s` names the unit of pixels, in either case.
pub open spec fn is_px(s: Seq<char>) -> bool {
    s.len() == 2 && (s[0] == 'p' || s[0] == 'P') && (s[1] == 'x' || s[1] == 'X')
}

/// The value at `pos`, and where it ends: a number with the unit `px` where a digit
/// stands; a colour of six hexadecimal digits where a `#` stands; else a keyword.
pub open spec fn spec_parse_value(input: Seq<char>, pos: int) -> Option<(ValueView, int)> {
    if pos < 0 || pos >= input.len() {
        None
    } else if CharClass::Digit.holds(input[pos]) {
        let end = run_end(input, pos, CharClass::Number);
        let unit_end = run_end(input, end, CharClass::Identifier);
        match spec_number(input, pos, end) {
            Some(n) => if is_px(input.subrange(end, unit_end)) {
                Some((ValueView::Length(n, Unit::Px), unit_end))
            } else {
                None
            },
            None => None,
        }
    } else if input[pos] == '#' {
        match (
            spec_hex_pair(input, pos + 1),
            spec_hex_pair(input, pos + 3),
            spec_hex_pair(input, pos + 5),
        ) {
            (Some(r), Some(g), Some(b)) => Some(
                (ValueView::ColorValue(Color { r, g, b, a: 255 }), pos + 7),
            ),
            _ => None,
        }
    } else {
        let end = run_end(input, pos, CharClass::Identifier);
        Some((ValueView::Keyword(input.subrange(pos, end)), end))
    }
}

/// The declaration at `pos`, and where it ends: a name, `:`, a value and `;`, with white
/// space allowed round the colon and before the semicolon.
pub open spec fn spec_declaration(input: Seq<char>, pos: int) -> Option<(DeclarationView, int)> {
    let name_end = run_end(input, pos, CharClass::Identifier);
    let colon = run_end(input, name_end, CharClass::Whitespace);
    if colon >= input.len() || input[colon] != ':' {
        None
    } else {
        match spec_parse_value(input, run_end(input, colon + 1, CharClass::Whitespace)) {
            Some((value, value_end)) => {
                let semicolon = run_end(input, value_end, CharClass::Whitespace);
                if semicolon >= input.len() || input[semicolon] != ';' {
                    None
                } else {
                    Some(
                        (
                            DeclarationView { name: input.subrange(pos, name_end), value },
                            semicolon + 1,
                        ),
                    )
                }
            },
            None => None,
        }
    }
}

/// The declarations from `pos` up to the `}` that ends the block, added to `acc`, and
/// the place after the `}`. (The bounds on `next` only show that the recursion ends.)
pub open spec fn spec_declarations(input: Seq<char>, pos: int, acc: Seq<DeclarationView>)
    -> Option<(Seq<DeclarationView>, int)>
    decreases input.len() - pos,
{
    if pos < 0 || pos > input.len() {
        None
    } else {
        let start = run_end(input, pos, CharClass::Whitespace);
        if start >= input.len() {
            None
        } else if input[start] == '}' {
            Some((acc, start + 1))
        } else {
            match spec_declaration(input, start) {
                Some((declaration, next)) => {
                    if next <= pos || next > input.len() {
                        None
                    } else {
                        spec_declarations(input, next, acc.push(declaration))
                    }
                },
                None => None,
            }
        }
    }
}

/// The rule at `pos`, and where it ends: selectors, then declarations in braces.
pub open spec fn spec_rule(input: Seq<char>, pos: int) -> Option<(RuleView, int)> {
    match spec_selectors(input, pos, Seq::empty()) {
        Some((selectors, brace)) => match spec_declarations(input, brace + 1, Seq::empty()) {
            Some((declarations, end)) => Some((RuleView { selectors, declarations }, end)),
            None => None,
        },
        None => None,
    }
}

/// The rules from `pos` to the end of the text, added to `acc`. (The bounds on `next`
/// only show that the recursion ends.)
pub open spec fn spec_rules(input: Seq<char>, pos: int, acc: Seq<RuleView>) -> Option<
    Seq<RuleView>,
>
    decreases input.len() - pos,
{
    if pos < 0 || pos > input.len() {
        None
    } else {
        let start = run_end(input, pos, CharClass::Whitespace);
        if start >= input.len() {
            Some(acc)
        } else {
            match spec_rule(input, start) {
                Some((rule, next)) => {
                    if next <= pos || next > input.len() {
                        None
                    } else {
                        spec_rules(input, next, acc.push(rule))
                    }
                },
                None => None,
            }
        }
    }
}

/// The style sheet that `source` holds: rules one after the other, white space between
/// them being skipped. `None` where the text is not well formed.
pub open spec fn spec_parse(source: Seq<char>) -> Option<StylesheetView> {
    match spec_rules(source, 0, Seq::empty()) {
        Some(rules) => Some(StylesheetView { rules }),
        None => None,
    }
}

/// The models of a list of selectors.
pub open spec fn selectors_view(v: Seq<Selector>) -> Seq<SimpleSelectorView> {
    v.map_values(|s: Selector| s@)
}

/// The models of a list of declarations.
pub open spec fn declarations_view(v: Seq<Declaration>) -> Seq<DeclarationView> {
    v.map_values(|d: Declaration| d@)
}

/// The models of a list of rules.
pub open spec fn rules_view(v: Seq<Rule>) -> Seq<RuleView> {
    v.map_values(|r: Rule| r@)
}

/// Whether `c` may stand in a name: an ASCII letter or digit, `-` or `_`.
pub fn valid_identifier_char(c: char) -> (r: bool)
    ensures
        r == CharClass::Identifier.holds(c),
{
    CharClass::Identifier.test(c)
}

/// Puts the selectors in order, the most specific first; see [`sort_selectors`].
pub fn sort_by_specificity(selectors: Vec<Selector>) -> (r: Vec<Selector>)
    ensures
        selectors_view(r@) == sort_selectors(selectors_view(selectors@)),
{
    let ghost all = selectors_view(selectors@);
    let mut rest = selectors;
    let mut sorted: Vec<Selector> = Vec::new();
    let ghost mut k: int = 0;
    proof {
        assert(all.take(0) =~= Seq::empty());
        assert(selectors_view(sorted@) =~= Seq::empty());
        assert(all.skip(0) =~= all);
    }
    while rest.len() > 0
        invariant
            0 <= k <= all.len(),
            selectors_view(rest@) == all.skip(k),
            selectors_view(sorted@) == sort_selectors(all.take(k)),
        decreases rest.len(),
    {
        let ghost rest_before = rest@;
        proof {
            assert(all.skip(k).len() == rest@.len());
            assert(all.skip(k)[0] == rest@[0]@);
        }
        let x = rest.remove(0);
        let ghost sorted_view = selectors_view(sorted@);
        let key = x.specificity();
        let mut place: usize = 0;
        while place < sorted.len() && !specificity_less(&sorted[place].specificity(), &key)
            invariant
                place <= sorted.len(),
                sorted_view == selectors_view(sorted@),
                specificity_ints(key) == x@.specificity(),
                insert_place(sorted_view, x@, 0) == insert_place(sorted_view, x@, place as int),
            decreases sorted.len() - place,
        {
            assert(sorted_view[place as int] == sorted@[place as int]@);
            place += 1;
        }
        proof {
            if place < sorted.len() {
                assert(sorted_view[place as int] == sorted@[place as int]@);
            }
            assert(x@ == all.skip(k)[0]);
            assert(all.take(k + 1).drop_last() =~= all.take(k));
            assert(all.take(k + 1).last() == x@);
        }
        sorted.insert(place, x);
        proof {
            assert(selectors_view(sorted@) =~= sorted_view.insert(place as int, x@));
            assert forall|j: int| 0 <= j < rest@.len() implies selectors_view(rest@)[j] == all.skip(
                k + 1,
            )[j] by {
                assert(rest@[j] == rest_before[j + 1]);
                assert(all.skip(k)[j + 1] == rest_before[j + 1]@);
            }
            assert(selectors_view(rest@) =~= all.skip(k + 1));
            k = k + 1;
        }
    }
    proof {
        assert(all.take(k) =~= all);
    }
    sorted
}

/// A number at most this large stands for itself; a greater one is out of range anyway.
const WHOLE_LIMIT: i128 = 10_000_000_000_000_000;

/// A reader that walks through the text from front to back.
struct Parser {
    pos: usize,
    input: Vec<char>,
}

impl Parser {
    /// The reader stands within its text.
    spec fn wf(&self) -> bool {
        self.pos <= self.input@.len()
    }

    /// The character at the reader's place.
    fn next_char(&self) -> (c: char)
        requires
            self.pos < self.input@.len(),
        ensures
            c == self.input@[self.pos as int],
    {
        self.input[self.pos]
    }

    /// Whether the reader has reached the end of the text.
    fn eof(&self) -> (r: bool)
        ensures
            r == (self.pos >= self.input@.len()),
    {
        self.pos >= self.input.len()
    }

    /// Steps over the character at the reader's place and returns it.
    fn consume_char(&mut self) -> (c: char)
        requires
            old(self).pos < old(self).input@.len(),
        ensures
            final(self).input == old(self).input,
            final(self).pos == old(self).pos + 1,
            c == old(self).input@[old(self).pos as int],
    {
        let c = self.input[self.pos];
        let n = self.input.len();
        self.pos += 1;
        c
    }

    /// Steps over the longest run of characters of `class` and returns it.
    fn consume_while(&mut self, class: CharClass) -> (r: String)
        requires
            old(self).wf(),
        ensures
            final(self).input == old(self).input,
            final(self).wf(),
            final(self).pos == run_end(old(self).input@, old(self).pos as int, class),
            final(self).pos >= old(self).pos,
            r@ == old(self).input@.subrange(old(self).pos as int, final(self).pos as int),
    {
        let start = self.pos;
        while !self.eof() && class.test(self.next_char())
            invariant
                self.input == old(self).input,
                start == old(self).pos,
                start <= self.pos <= self.input@.len(),
                run_end(self.input@, start as int, class) == run_end(
                    self.input@,
                    self.pos as int,
                    class,
                ),
            decreases self.input@.len() - self.pos,
        {
            self.consume_char();
        }
        string_of(&self.input, start, self.pos)
    }

    /// Steps over white space.
    fn consume_whitespace(&mut self)
        requires
            old(self).wf(),
        ensures
            final(self).input == old(self).input,
            final(self).wf(),
            final(self).pos == run_end(old(self).input@, old(self).pos as int, CharClass::Whitespace),
            final(self).pos >= old(self).pos,
    {
        let _ = self.consume_while(CharClass::Whitespace);
    }

    /// Reads a name.
    fn parse_identifier(&mut self) -> (r: String)
        requires
            old(self).wf(),
        ensures
            final(self).input == old(self).input,
            final(self).wf(),
            final(self).pos == run_end(old(self).input@, old(self).pos as int, CharClass::Identifier),
            final(self).pos >= old(self).pos,
            r@ == old(self).input@.subrange(old(self).pos as int, final(self).pos as int),
    {
        self.consume_while(CharClass::Identifier)
    }

    /// Reads one selector; see [`spec_simple_selector`].
    fn parse_simple_selector(&mut self) -> (r: SimpleSelector)
        requires
            old(self).wf(),
        ensures
            final(self).input == old(self).input,
            final(self).wf(),
            final(self).pos >= old(self).pos,
            (r@, final(self).pos as int) == spec_simple_selector(
                old(self).input@,
                old(self).pos as int,
                SimpleSelectorView { tag_name: None, id: None, class: Seq::empty() },
            ),
    {
        let mut selector = SimpleSelector { tag_name: None, id: None, class: Vec::new() };
        let ghost input = self.input@;
        let ghost start = self.pos as int;
        let ghost empty = SimpleSelectorView { tag_name: None, id: None, class: Seq::empty() };
        proof {
            assert(selector@.class =~= Seq::empty());
        }
        while !self.eof()
            invariant
                self.wf(),
                self.input == old(self).input,
                input == self.input@,
                start == old(self).pos,
                self.pos >= start,
                spec_simple_selector(input, start, empty) == spec_simple_selector(
                    input,
                    self.pos as int,
                    selector@,
                ),
            ensures
                spec_simple_selector(input, self.pos as int, selector@) == (
                    selector@,
                    self.pos as int,
                ),
            decreases input.len() - self.pos,
        {
            let c = self.next_char();
            let ghost here = self.pos as int;
            let ghost before = selector@;
            proof {
                lemma_run_end(input, here + 1, CharClass::Identifier);
            }
            if c == '#' {
                self.consume_char();
                selector.id = Some(self.parse_identifier());
            } else if c == '.' {
                self.consume_char();
                let class = self.parse_identifier();
                selector.class.push(class);
                proof {
                    assert(selector@.class =~= before.class.push(class@));
                }
            } else if c == '*' {
                self.consume_char();
            } else if valid_identifier_char(c) {
                selector.tag_name = Some(self.parse_identifier());
            } else {
                break ;
            }
        }
        selector
    }

    /// Reads one rule: selectors, then declarations.
    fn parse_rule(&mut self) -> (r: Option<Rule>)
        requires
            old(self).wf(),
        ensures
            final(self).input == old(self).input,
            final(self).wf(),
            match spec_rule(old(self).input@, old(self).pos as int) {
                Some((rule, end)) => r matches Some(x) && x@ == rule && final(self).pos == end
                    && end > old(self).pos,
                None => r is None,
            },
    {
        let selectors = match self.parse_selectors() {
            Some(selectors) => selectors,
            None => {
                return None;
            },
        };
        let declarations = match self.parse_declarations() {
            Some(declarations) => declarations,
            None => {
                return None;
            },
        };
        Some(Rule { selectors, declarations })
    }

    /// Reads a list of selectors up to the `{`; see [`spec_selectors`].
    fn parse_selectors(&mut self) -> (r: Option<Vec<Selector>>)
        requires
            old(self).wf(),
        ensures
            final(self).input == old(self).input,
            final(self).wf(),
            match spec_selectors(old(self).input@, old(self).pos as int, Seq::empty()) {
                Some((selectors, brace)) => r matches Some(v) && selectors_view(v@) == selectors
                    && final(self).pos == brace && brace >= old(self).pos && brace
                    < old(self).input@.len() && old(self).input@[brace] == '{',
                None => r is None,
            },
    {
        let mut selectors: Vec<Selector> = Vec::new();
        let ghost input = self.input@;
        let ghost start = self.pos as int;
        proof {
            assert(selectors_view(selectors@) =~= Seq::empty());
        }
        loop
            invariant
                self.wf(),
                self.input == old(self).input,
                input == self.input@,
                start == old(self).pos,
                self.pos >= start,
                spec_selectors(input, start, Seq::empty()) == spec_selectors(
                    input,
                    self.pos as int,
                    selectors_view(selectors@),
                ),
            decreases input.len() - self.pos,
        {
            let ghost acc = selectors_view(selectors@);
            let selector = Selector::Simple(self.parse_simple_selector());
            selectors.push(selector);
            proof {
                assert(selectors_view(selectors@) =~= acc.push(selector@));
            }
            self.consume_whitespace();
            if self.eof() {
                return None;
            }
            let c = self.next_char();
            if c == ',' {
                self.consume_char();
                self.consume_whitespace();
            } else if c == '{' {
                return Some(sort_by_specificity(selectors));
            } else {
                return None;
            }
        }
    }

    /// Reads declarations in braces; the reader stands at the `{`.
    fn parse_declarations(&mut self) -> (r: Option<Vec<Declaration>>)
        requires
            old(self).pos < old(self).input@.len(),
        ensures
            final(self).input == old(self).input,
            final(self).wf(),
            match spec_declarations(old(self).input@, old(self).pos + 1, Seq::empty()) {
                Some((declarations, end)) => r matches Some(v) && declarations_view(v@)
                    == declarations && final(self).pos == end && end > old(self).pos,
                None => r is None,
            },
    {
        self.consume_char();
        let mut declarations: Vec<Declaration> = Vec::new();
        let ghost input = self.input@;
        let ghost start = self.pos as int;
        proof {
            assert(declarations_view(declarations@) =~= Seq::empty());
        }
        loop
            invariant
                self.wf(),
                self.input == old(self).input,
                input == self.input@,
                start == old(self).pos + 1,
                self.pos >= start,
                spec_declarations(input, start, Seq::empty()) == spec_declarations(
                    input,
                    self.pos as int,
                    declarations_view(declarations@),
                ),
            decreases input.len() - self.pos,
        {
            let ghost before = self.pos as int;
            self.consume_whitespace();
            proof {
                lemma_run_end(input, before, CharClass::Whitespace);
            }
            if self.eof() {
                return None;
            }
            if self.next_char() == '}' {
                self.consume_char();
                return Some(declarations);
            }
            let ghost acc = declarations_view(declarations@);
            match self.parse_declaration() {
                Some(declaration) => {
                    declarations.push(declaration);
                    proof {
                        assert(declarations_view(declarations@) =~= acc.push(declaration@));
                    }
                },
                None => {
                    return None;
                },
            }
        }
    }

    /// Reads one declaration; see [`spec_declaration`].
    fn parse_declaration(&mut self) -> (r: Option<Declaration>)
        requires
            old(self).wf(),
        ensures
            final(self).input == old(self).input,
            final(self).wf(),
            match spec_declaration(old(self).input@, old(self).pos as int) {
                Some((declaration, end)) => r matches Some(d) && d@ == declaration
                    && final(self).pos == end && end > old(self).pos,
                None => r is None,
            },
    {
        let property_name = self.parse_identifier();
        self.consume_whitespace();
        if self.eof() || self.next_char() != ':' {
            return None;
        }
        self.consume_char();
        self.consume_whitespace();
        let value = match self.parse_value() {
            Some(value) => value,
            None => {
                return None;
            },
        };
        self.consume_whitespace();
        if self.eof() || self.next_char() != ';' {
            return None;
        }
        self.consume_char();
        Some(Declaration { name: property_name, value })
    }

    /// Reads a value; see [`spec_parse_value`].
    fn parse_value(&mut self) -> (r: Option<Value>)
        requires
            old(self).wf(),
        ensures
            final(self).input == old(self).input,
            final(self).wf(),
            match spec_parse_value(old(self).input@, old(self).pos as int) {
                Some((value, end)) => r matches Some(v) && v@ == value && final(self).pos == end
                    && end >= old(self).pos,
                None => r is None,
            },
    {
        if self.eof() {
            return None;
        }
        let c = self.next_char();
        if CharClass::Digit.test(c) {
            self.parse_length()
        } else if c == '#' {
            self.parse_color()
        } else {
            Some(Value::Keyword(self.parse_identifier()))
        }
    }

    /// Reads a number and its unit.
    fn parse_length(&mut self) -> (r: Option<Value>)
        requires
            old(self).wf(),
        ensures
            final(self).input == old(self).input,
            final(self).wf(),
            final(self).pos >= old(self).pos,
            ({
                let input = old(self).input@;
                let pos = old(self).pos as int;
                let end = run_end(input, pos, CharClass::Number);
                let unit_end = run_end(input, end, CharClass::Identifier);
                match spec_number(input, pos, end) {
                    Some(n) => if is_px(input.subrange(end, unit_end)) {
                        r matches Some(v) && v@ == ValueView::Length(n, Unit::Px) && final(self).pos
                            == unit_end
                    } else {
                        r is None
                    },
                    None => r is None,
                }
            }),
    {
        let number = match self.parse_float() {
            Some(number) => number,
            None => {
                return None;
            },
        };
        match self.parse_unit() {
            Some(unit) => Some(Value::Length(number, unit)),
            None => None,
        }
    }

    /// Reads a number: digits, then at most one point and more digits.
    fn parse_float(&mut self) -> (r: Option<Fixed>)
        requires
            old(self).wf(),
        ensures
            final(self).input == old(self).input,
            final(self).wf(),
            final(self).pos == run_end(old(self).input@, old(self).pos as int, CharClass::Number),
            final(self).pos >= old(self).pos,
            r == spec_number(old(self).input@, old(self).pos as int, final(self).pos as int),
    {
        let start = self.pos;
        let ghost input = self.input@;
        let _ = self.consume_while(CharClass::Number);
        let end = self.pos;
        proof {
            lemma_run_end(input, start as int, CharClass::Number);
            lemma_run_end(input, start as int, CharClass::Digit);
        }

        let mut whole: i128 = 0;
        let mut i: usize = start;
        proof {
            assert(input.subrange(start as int, start as int) =~= Seq::empty());
        }
        while i < end && CharClass::Digit.test(self.input[i])
            invariant
                self.input@ == input,
                start <= i <= end <= input.len(),
                end == run_end(input, start as int, CharClass::Number),
                run_end(input, start as int, CharClass::Digit) == run_end(
                    input,
                    i as int,
                    CharClass::Digit,
                ),
                0 <= whole <= WHOLE_LIMIT,
                whole == if digits_value(input.subrange(start as int, i as int)) < WHOLE_LIMIT {
                    digits_value(input.subrange(start as int, i as int))
                } else {
                    WHOLE_LIMIT as int
                },
                digits_value(input.subrange(start as int, i as int)) >= 0,
            decreases end - i,
        {
            let digit: i128 = (self.input[i] as u32 - '0' as u32) as i128;
            proof {
                assert(input.subrange(start as int, i + 1).drop_last() =~= input.subrange(
                    start as int,
                    i as int,
                ));
                assert(input.subrange(start as int, i + 1).last() == input[i as int]);
            }
            whole = whole * 10 + digit;
            if whole > WHOLE_LIMIT {
                whole = WHOLE_LIMIT;
            }
            i += 1;
        }
        proof {
            lemma_run_end(input, i as int, CharClass::Digit);
            if i < end {
                assert(CharClass::Number.holds(input[i as int]));
            }
        }
        let ghost exact = digits_value(input.subrange(start as int, i as int));
        if i >= end {
            return Some(Fixed::from_units(whole * (SCALE as i128)));
        }
        // a point stands at `i`
        let mut j: usize = i + 1;
        let mut fraction: i128 = 0;
        let mut weight: i128 = 100;
        while j < end && CharClass::Digit.test(self.input[j])
            invariant
                self.input@ == input,
                i < j <= end <= input.len(),
                run_end(input, i + 1, CharClass::Digit) == run_end(input, j as int, CharClass::Digit),
                0 <= whole <= WHOLE_LIMIT,
                weight == if j - i == 1 {
                    100int
                } else if j - i == 2 {
                    10int
                } else if j - i == 3 {
                    1int
                } else {
                    0int
                },
                fraction == thousandths(input.subrange(i + 1, j as int)),
                0 <= fraction < 1000,
            decreases end - j,
        {
            let digit: i128 = (self.input[j] as u32 - '0' as u32) as i128;
            proof {
                let old_part = input.subrange(i + 1, j as int);
                let new_part = input.subrange(i + 1, j + 1);
                assert(new_part.len() == old_part.len() + 1);
                assert forall|k: int| 0 <= k < old_part.len() implies new_part[k] == old_part[k] by {}
                assert(new_part[j - i - 1] == input[j as int]);
            }
            fraction = fraction + digit * weight;
            weight = if weight == 100 {
                10
            } else if weight == 10 {
                1
            } else {
                0
            };
            j += 1;
        }
        proof {
            lemma_run_end(input, j as int, CharClass::Digit);
        }
        if j < end {
            return None;
        }
        Some(Fixed::from_units(whole * (SCALE as i128) + fraction))
    }

    /// Reads the unit of a length: `px`, in either case.
    fn parse_unit(&mut self) -> (r: Option<Unit>)
        requires
            old(self).wf(),
        ensures
            final(self).input == old(self).input,
            final(self).wf(),
            final(self).pos == run_end(old(self).input@, old(self).pos as int, CharClass::Identifier),
            final(self).pos >= old(self).pos,
            r is Some <==> is_px(
                old(self).input@.subrange(old(self).pos as int, final(self).pos as int),
            ),
    {
        let start = self.pos;
        let _ = self.parse_identifier();
        if self.pos - start == 2 {
            let p = self.input[start];
            let x = self.input[start + 1];
            if (p == 'p' || p == 'P') && (x == 'x' || x == 'X') {
                return Some(Unit::Px);
            }
        }
        None
    }

    /// Reads a colour: `#` and three bytes in hexadecimal.
    fn parse_color(&mut self) -> (r: Option<Value>)
        requires
            old(self).pos < old(self).input@.len(),
            old(self).input@[old(self).pos as int] == '#',
        ensures
            final(self).input == old(self).input,
            final(self).wf(),
            final(self).pos >= old(self).pos,
            match (
                spec_hex_pair(old(self).input@, old(self).pos + 1),
                spec_hex_pair(old(self).input@, old(self).pos + 3),
                spec_hex_pair(old(self).input@, old(self).pos + 5),
            ) {
                (Some(red), Some(green), Some(blue)) => r matches Some(v) && v@
                    == ValueView::ColorValue(Color { r: red, g: green, b: blue, a: 255 })
                    && final(self).pos == old(self).pos + 7,
                _ => r is None,
            },
    {
        self.consume_char();
        let red = match self.parse_hex_pair() {
            Some(byte) => byte,
            None => {
                return None;
            },
        };
        let green = match self.parse_hex_pair() {
            Some(byte) => byte,
            None => {
                return None;
            },
        };
        let blue = match self.parse_hex_pair() {
            Some(byte) => byte,
            None => {
                return None;
            },
        };
        Some(Value::ColorValue(Color { r: red, g: green, b: blue, a: 255 }))
    }

    /// Reads one byte in hexadecimal; see [`spec_hex_pair`].
    fn parse_hex_pair(&mut self) -> (r: Option<u8>)
        requires
            old(self).wf(),
        ensures
            final(self).input == old(self).input,
            final(self).wf(),
            r == spec_hex_pair(old(self).input@, old(self).pos as int),
            r is Some ==> final(self).pos == old(self).pos + 2,
            r is None ==> final(self).pos == old(self).pos,
    {
        if self.input.len() - self.pos < 2 {
            return None;
        }
        let first = self.input[self.pos];
        let second = self.input[self.pos + 1];
        let low = match hex_digit(second) {
            Some(low) => low,
            None => {
                return None;
            },
        };
        let byte = match hex_digit(first) {
            Some(high) => high * 16 + low,
            None => {
                if first == '+' {
                    low
                } else {
                    return None;
                }
            },
        };
        self.pos += 2;
        Some(byte)
    }

    /// Reads rules up to the end of the text.
    fn parse_rules(&mut self) -> (r: Option<Vec<Rule>>)
        requires
            old(self).wf(),
        ensures
            match spec_rules(old(self).input@, old(self).pos as int, Seq::empty()) {
                Some(rules) => r matches Some(v) && rules_view(v@) == rules,
                None => r is None,
            },
    {
        let mut rules: Vec<Rule> = Vec::new();
        let ghost input = self.input@;
        let ghost start = self.pos as int;
        proof {
            assert(rules_view(rules@) =~= Seq::empty());
        }
        loop
            invariant
                self.wf(),
                self.input == old(self).input,
                input == self.input@,
                start == old(self).pos,
                self.pos >= start,
                spec_rules(input, start, Seq::empty()) == spec_rules(
                    input,
                    self.pos as int,
                    rules_view(rules@),
                ),
            decreases input.len() - self.pos,
        {
            let ghost before = self.pos as int;
            self.consume_whitespace();
            proof {
                lemma_run_end(input, before, CharClass::Whitespace);
            }
            if self.eof() {
                return Some(rules);
            }
            let ghost acc = rules_view(rules@);
            match self.parse_rule() {
                Some(rule) => {
                    rules.push(rule);
                    proof {
                        assert(rules_view(rules@) =~= acc.push(rule@));
                    }
                },
                None => {
                    return None;
                },
            }
        }
    }
}

/// The value of a hexadecimal digit.
fn hex_digit(c: char) -> (r: Option<u8>)
    ensures
        match r {
            Some(v) => hex_value(c) == Some(v as int) && v < 16,
            None => hex_value(c) is None,
        },
{
    if '0' <= c && c <= '9' {
        Some((c as u32 - '0' as u32) as u8)
    } else if 'a' <= c && c <= 'f' {
        Some((c as u32 - 'a' as u32 + 10) as u8)
    } else if 'A' <= c && c <= 'F' {
        Some((c as u32 - 'A' as u32 + 10) as u8)
    } else {
        None
    }
}

/// Reads the style sheet that `source` holds; see [`spec_parse`]. `None` where the text
/// is not well formed.
pub fn try_parse(source: &str) -> (r: Option<Stylesheet>)
    ensures
        match spec_parse(source@) {
            Some(sheet) => r matches Some(s) && s@ == sheet,
            None => r is None,
        },
{
    let mut parser = Parser { pos: 0, input: chars_of(source) };
    match parser.parse_rules() {
        Some(rules) => Some(Stylesheet { rules }),
        None => None,
    }
}

/// Reads the style sheet that `source` holds; see [`spec_parse`].
pub fn parse(source: String) -> (r: Stylesheet)
    requires
        spec_parse(source@) is Some,
    ensures
        r@ == spec_parse(source@)->0,
{
    match try_parse(source.as_str()) {
        Some(sheet) => sheet,
        None => vstd::pervasive::unreached(),
    }
}

} // verus!
