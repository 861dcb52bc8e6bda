//! Style resolution: which rules match an element, and what the cascade makes of them.

use vstd::prelude::*;
use crate::css::{
    specificity_ints, specificity_less, specificity_lt, Rule, RuleView, Selector, SimpleSelector,
    SimpleSelectorView, Specificity, Stylesheet, StylesheetView, Value, ValueView,
};
use crate::dom::{ElementData, ElementDataView, Node, NodeType, NodeTypeView, NodeView};
use crate::strmap::StrMap;
use crate::text::{chars_of, is_whitespace, spec_is_whitespace, str_eq, string_of};

verus! {

/// How a node takes part in layout.
#[derive(Debug, Clone, Copy, PartialEq, Eq, Structural)]
pub enum Display {
    Inline,
    Block,
    /// The node and everything below it is left out of layout.
    Hidden,
}

/// Resolved properties of a node, by name.
pub type PropertyMap = StrMap<Value>;

/// A document node together with its resolved properties and its styled children.
#[derive(Debug)]
pub struct StyledNode<'a> {
    pub node: &'a Node,
    pub specified_values: PropertyMap,
    pub children: Vec<StyledNode<'a>>,
}

/// Model of a [`StyledNode`].
pub struct StyledNodeView {
    pub node: NodeView,
    pub props: Map<Seq<char>, ValueView>,
    pub children: Seq<StyledNodeView>,
}

/// The value of `name` in `props`, if it has one.
pub open spec fn spec_value(props: Map<Seq<char>, ValueView>, name: Seq<char>) -> Option<
    ValueView,
> {
    if props.contains_key(name) {
        Some(props[name])
    } else {
        None
    }
}

/// `Block` for the keyword `block`, `Hidden` for the keyword `none`, `Inline` for anything
/// else and where `display` is not set.
pub open spec fn spec_display(props: Map<Seq<char>, ValueView>) -> Display {
    match spec_value(props, "display"@) {
        Some(ValueView::Keyword(s)) => if s == "block"@ {
            Display::Block
        } else if s == "none"@ {
            Display::Hidden
        } else {
            Display::Inline
        },
        _ => Display::Inline,
    }
}

/// The value of `primary`; failing that, of `fallback`; failing that, `default`.
pub open spec fn spec_lookup(
    props: Map<Seq<char>, ValueView>,
    primary: Seq<char>,
    fallback: Seq<char>,
    default: ValueView,
) -> ValueView {
    match spec_value(props, primary) {
        Some(v) => v,
        None => match spec_value(props, fallback) {
            Some(v) => v,
            None => default,
        },
    }
}

/// The model of an optional value.
pub open spec fn opt_value_view(v: Option<Value>) -> Option<ValueView> {
    match v {
        Some(x) => Some(x@),
        None => None,
    }
}

/// The model of `styled`.
pub open spec fn styled_view(styled: StyledNode) -> StyledNodeView
    decreases styled,
{
    StyledNodeView {
        node: styled.node@,
        props: styled.props(),
        children: Seq::new(
            styled.children@.len(),
            |i: int|
                if 0 <= i < styled.children@.len() {
                    styled_view(styled.children@[i])
                } else {
                    arbitrary()
                },
        ),
    }
}

impl<'a> View for StyledNode<'a> {
    type V = StyledNodeView;

    open spec fn view(&self) -> StyledNodeView {
        styled_view(*self)
    }
}

impl<'a> StyledNode<'a> {
    /// The resolved properties as a map of models.
    pub open spec fn props(&self) -> Map<Seq<char>, ValueView> {
        self.specified_values@.map_values(|v: Value| v@)
    }

    /// The resolved value of the property `name`, if it has one.
    pub fn value(&self, name: &str) -> (r: Option<Value>)
        ensures
            opt_value_view(r) == spec_value(self.props(), name@),
    {
        match self.specified_values.get(name) {
            Some(v) => Some(v.clone()),
            None => None,
        }
    }

    /// How the node takes part in layout; see [`spec_display`].
    pub fn display(&self) -> (r: Display)
        ensures
            r == spec_display(self.props()),
    {
        match self.specified_values.get("display") {
            Some(Value::Keyword(s)) => {
                if str_eq(s.as_str(), "block") {
                    Display::Block
                } else if str_eq(s.as_str(), "none") {
                    Display::Hidden
                } else {
                    Display::Inline
                }
            },
            _ => Display::Inline,
        }
    }

    /// The value of `primary`; failing that, of `fallback`; failing that, `default`.
    pub fn lookup(&self, primary: &str, fallback: &str, default: &Value) -> (r: Value)
        ensures
            r@ == spec_lookup(self.props(), primary@, fallback@, default@),
    {
        match self.specified_values.get(primary) {
            Some(v) => v.clone(),
            None => match self.specified_values.get(fallback) {
                Some(v) => v.clone(),
                None => default.clone(),
            },
        }
    }
}

/// `s[from..to]` is a maximal run of characters that are not white space.
pub open spec fn is_token(s: Seq<char>, from: int, to: int) -> bool {
    &&& 0 <= from < to <= s.len()
    &&& forall|i: int| from <= i < to ==> !spec_is_whitespace(#[trigger] s[i])
    &&& (from == 0 || spec_is_whitespace(s[from - 1]))
    &&& (to == s.len() || spec_is_whitespace(s[to]))
}

/// `word` is one of the tokens that white space separates in `s`.
pub open spec fn has_token(s: Seq<char>, word: Seq<char>) -> bool {
    exists|from: int, to: int| #[trigger] is_token(s, from, to) && s.subrange(from, to) == word
}

impl ElementDataView {
    /// The value of the attribute `id`, if there is one.
    pub open spec fn id(self) -> Option<Seq<char>> {
        if self.attrs.contains_key("id"@) {
            Some(self.attrs["id"@])
        } else {
            None
        }
    }

    /// Whether `class` is one of the tokens of the attribute `class`.
    pub open spec fn has_class(self, class: Seq<char>) -> bool {
        self.attrs.contains_key("class"@) && has_token(self.attrs["class"@], class)
    }
}

/// The tokens that white space separates in `s`.
fn split_tokens(s: &str) -> (r: Vec<String>)
    ensures
        forall|k: int| 0 <= k < r@.len() ==> has_token(s@, #[trigger] r@[k]@),
        forall|from: int, to: int| #[trigger]
            is_token(s@, from, to) ==> exists|k: int|
                0 <= k < r@.len() && #[trigger] r@[k]@ == s@.subrange(from, to),
{
    let v = chars_of(s);
    let n = v.len();
    let mut r: Vec<String> = Vec::new();
    let mut i: usize = 0;
    while i < n
        invariant
            n == v@.len(),
            v@ == s@,
            i <= n,
            i == 0 || i == n || spec_is_whitespace(v@[i - 1]) || spec_is_whitespace(v@[i as int]),
            forall|k: int| 0 <= k < r@.len() ==> has_token(s@, #[trigger] r@[k]@),
            forall|from: int, to: int| #[trigger]
                is_token(s@, from, to) && to <= i ==> exists|k: int|
                    0 <= k < r@.len() && #[trigger] r@[k]@ == s@.subrange(from, to),
        decreases n - i,
    {
        if is_whitespace(v[i]) {
            i += 1;
        } else {
            let start = i;
            while i < n && !is_whitespace(v[i])
                invariant
                    n == v@.len(),
                    start <= i <= n,
                    forall|j: int| start <= j < i ==> !spec_is_whitespace(#[trigger] v@[j]),
                decreases n - i,
            {
                i += 1;
            }
            let word = string_of(&v, start, i);
            let ghost old_r = r@;
            r.push(word);
            proof {
                assert(is_token(s@, start as int, i as int));
                assert forall|from: int, to: int| #[trigger]
                    is_token(s@, from, to) && to <= i implies exists|k: int|
                    0 <= k < r@.len() && #[trigger] r@[k]@ == s@.subrange(from, to) by {
                    if to <= start {
                        let k = choose|k: int|
                            0 <= k < old_r.len() && #[trigger] old_r[k]@ == s@.subrange(from, to);
                        assert(r@[k] == old_r[k]);
                    } else {
                        assert(!spec_is_whitespace(s@[to - 1]));
                        if to < i {
                            assert(!spec_is_whitespace(s@[to]));
                        }
                        assert(to == i);
                        if from < start {
                            assert(!spec_is_whitespace(s@[start - 1]));
                        }
                        if from > start {
                            assert(!spec_is_whitespace(s@[from - 1]));
                        }
                        assert(from == start);
                        assert(r@[r@.len() - 1]@ == s@.subrange(from, to));
                    }
                }
                assert forall|k: int| 0 <= k < r@.len() implies has_token(s@, #[trigger] r@[k]@) by {
                    if k < old_r.len() {
                        assert(r@[k] == old_r[k]);
                    }
                }
            }
        }
    }
    r
}

impl ElementData {
    /// The value of the attribute `id`, if there is one.
    pub fn id(&self) -> (r: Option<&String>)
        ensures
            match r {
                Some(s) => self@.id() == Some(s@),
                None => self@.id() is None,
            },
    {
        self.attrs.get("id")
    }

    /// The tokens of the attribute `class`: the classes of the element.
    pub fn classes(&self) -> (r: Vec<String>)
        ensures
            forall|c: Seq<char>|
                self@.has_class(c) <==> exists|k: int| 0 <= k < r@.len() && #[trigger] r@[k]@ == c,
    {
        match self.attrs.get("class") {
            Some(classlist) => {
                let r = split_tokens(classlist.as_str());
                proof {
                    assert forall|c: Seq<char>| self@.has_class(c) implies exists|k: int|
                        0 <= k < r@.len() && #[trigger] r@[k]@ == c by {
                        let (from, to) = choose|from: int, to: int| #[trigger]
                            is_token(classlist@, from, to) && classlist@.subrange(from, to) == c;
                        assert(is_token(classlist@, from, to));
                    }
                }
                r
            },
            None => Vec::new(),
        }
    }
}

/// A selector matches an element if its tag name, where it has one, is the element's;
/// its id, where it has one, is the element's; and each of its classes is one of the
/// element's.
pub open spec fn selector_matches(elem: ElementDataView, sel: SimpleSelectorView) -> bool {
    &&& (sel.tag_name matches Some(t) ==> t == elem.tag_name)
    &&& (sel.id matches Some(i) ==> elem.id() == Some(i))
    &&& forall|k: int| 0 <= k < sel.class.len() ==> elem.has_class(#[trigger] sel.class[k])
}

/// The greatest specificity among the selectors of `sels` that match `elem`; `None`
/// where none of them matches.
pub open spec fn best_match(elem: ElementDataView, sels: Seq<SimpleSelectorView>) -> Option<
    (int, int, int),
>
    decreases sels.len(),
{
    if sels.len() == 0 {
        None
    } else {
        let rest = best_match(elem, sels.drop_last());
        let last = sels.last();
        if selector_matches(elem, last) {
            match rest {
                Some(r) => if specificity_lt(r, last.specificity()) {
                    Some(last.specificity())
                } else {
                    Some(r)
                },
                None => Some(last.specificity()),
            }
        } else {
            rest
        }
    }
}

/// The specificity with which `rule` applies to `elem`, if it does.
pub open spec fn rule_specificity(elem: ElementDataView, rule: RuleView) -> Option<
    (int, int, int),
> {
    best_match(elem, rule.selectors)
}

/// Whether some string of `v` holds the characters of `s`.
fn contains_str(v: &Vec<String>, s: &str) -> (r: bool)
    ensures
        r == exists|k: int| 0 <= k < v@.len() && #[trigger] v@[k]@ == s@,
{
    let mut i: usize = 0;
    while i < v.len()
        invariant
            i <= v.len(),
            forall|k: int| 0 <= k < i ==> #[trigger] v@[k]@ != s@,
        decreases v.len() - i,
    {
        if str_eq(v[i].as_str(), s) {
            return true;
        }
        i += 1;
    }
    false
}

/// Whether `selector` matches `elem`.
pub fn matches(elem: &ElementData, selector: &Selector) -> (r: bool)
    ensures
        r == selector_matches(elem@, selector@),
{
    match selector {
        Selector::Simple(s) => matches_simple_selector(elem, s),
    }
}

/// Whether `selector` matches `elem`.
pub fn matches_simple_selector(elem: &ElementData, selector: &SimpleSelector) -> (r: bool)
    ensures
        r == selector_matches(elem@, selector@),
{
    if let Some(name) = &selector.tag_name {
        if !str_eq(elem.tag_name.as_str(), name.as_str()) {
            return false;
        }
    }
    if let Some(id) = &selector.id {
        match elem.id() {
            Some(own) => {
                if !str_eq(own.as_str(), id.as_str()) {
                    return false;
                }
            },
            None => {
                return false;
            },
        }
    }
    let classes = elem.classes();
    let mut i: usize = 0;
    while i < selector.class.len()
        invariant
            i <= selector.class.len(),
            forall|c: Seq<char>|
                elem@.has_class(c) <==> exists|k: int|
                    0 <= k < classes@.len() && #[trigger] classes@[k]@ == c,
            forall|k: int| 0 <= k < i ==> elem@.has_class(#[trigger] selector@.class[k]),
        decreases selector.class.len() - i,
    {
        if !contains_str(&classes, selector.class[i].as_str()) {
            assert(!elem@.has_class(selector@.class[i as int]));
            return false;
        }
        assert(elem@.has_class(selector@.class[i as int]));
        i += 1;
    }
    true
}

/// The specificity with which `rule` applies to `elem`, if it does: the greatest one
/// among its selectors that match.
pub fn match_rule(elem: &ElementData, rule: &Rule) -> (r: Option<Specificity>)
    ensures
        match r {
            Some(s) => rule_specificity(elem@, rule@) == Some(specificity_ints(s)),
            None => rule_specificity(elem@, rule@) is None,
        },
{
    let mut best: Option<Specificity> = None;
    let mut i: usize = 0;
    while i < rule.selectors.len()
        invariant
            i <= rule.selectors.len(),
            match best {
                Some(s) => best_match(elem@, rule@.selectors.take(i as int)) == Some(
                    specificity_ints(s),
                ),
                None => best_match(elem@, rule@.selectors.take(i as int)) is None,
            },
        decreases rule.selectors.len() - i,
    {
        proof {
            assert(rule@.selectors.take(i + 1).drop_last() == rule@.selectors.take(i as int));
            assert(rule@.selectors.take(i + 1).last() == rule.selectors@[i as int]@);
        }
        if matches(elem, &rule.selectors[i]) {
            let s = rule.selectors[i].specificity();
            best =
            match best {
                Some(b) => if specificity_less(&b, &s) {
                    Some(s)
                } else {
                    Some(b)
                },
                None => Some(s),
            };
        }
        i += 1;
    }
    proof {
        assert(rule@.selectors.take(i as int) == rule@.selectors);
    }
    best
}

/// Declaration `j` of rule `i` sets the property `p`, and rule `i` applies to `elem`.
pub open spec fn candidate(
    elem: ElementDataView,
    sheet: StylesheetView,
    p: Seq<char>,
    i: int,
    j: int,
) -> bool {
    &&& 0 <= i < sheet.rules.len()
    &&& 0 <= j < sheet.rules[i].declarations.len()
    &&& sheet.rules[i].declarations[j].name == p
    &&& rule_specificity(elem, sheet.rules[i]) is Some
}

/// Declaration `j1` of rule `i1` is the same as, or is applied after, declaration `j2` of
/// rule `i2`: its rule is more specific; or as specific and later in the sheet; or the
/// same rule, and the declaration is not an earlier one.
pub open spec fn outranks(
    elem: ElementDataView,
    sheet: StylesheetView,
    i1: int,
    j1: int,
    i2: int,
    j2: int,
) -> bool {
    let s1 = rule_specificity(elem, sheet.rules[i1])->0;
    let s2 = rule_specificity(elem, sheet.rules[i2])->0;
    specificity_lt(s2, s1) || (s1 == s2 && (i2 < i1 || (i1 == i2 && j2 <= j1)))
}

/// Declaration `j` of rule `i` is the one that decides the property `p` for `elem`.
pub open spec fn wins(
    elem: ElementDataView,
    sheet: StylesheetView,
    p: Seq<char>,
    i: int,
    j: int,
) -> bool {
    &&& candidate(elem, sheet, p, i, j)
    &&& forall|i2: int, j2: int| #[trigger]
        candidate(elem, sheet, p, i2, j2) ==> outranks(elem, sheet, i, j, i2, j2)
}

/// Some declaration of an applicable rule sets `p`.
pub open spec fn is_set(elem: ElementDataView, sheet: StylesheetView, p: Seq<char>) -> bool {
    exists|i: int, j: int| #[trigger] candidate(elem, sheet, p, i, j)
}

/// The cascade: the properties that the rules of `sheet` give to `elem`. A property is
/// set exactly if a declaration of some applicable rule sets it, and its value is that
/// of the declaration that outranks all others.
pub open spec fn cascade(elem: ElementDataView, sheet: StylesheetView) -> Map<
    Seq<char>,
    ValueView,
> {
    Map::new(
        |p: Seq<char>| is_set(elem, sheet, p),
        |p: Seq<char>|
            {
                let (i, j) = choose|i: int, j: int| #[trigger] wins(elem, sheet, p, i, j);
                sheet.rules[i].declarations[j].value
            },
    )
}

/// At most one declaration wins a property.
pub proof fn lemma_winner_unique(
    elem: ElementDataView,
    sheet: StylesheetView,
    p: Seq<char>,
    i1: int,
    j1: int,
    i2: int,
    j2: int,
)
    requires
        wins(elem, sheet, p, i1, j1),
        wins(elem, sheet, p, i2, j2),
    ensures
        i1 == i2,
        j1 == j2,
{
    assert(outranks(elem, sheet, i1, j1, i2, j2));
    assert(outranks(elem, sheet, i2, j2, i1, j1));
}

/// Where a declaration wins a property, the cascade gives the property its value.
pub proof fn lemma_cascade_winner(
    elem: ElementDataView,
    sheet: StylesheetView,
    p: Seq<char>,
    i: int,
    j: int,
)
    requires
        wins(elem, sheet, p, i, j),
    ensures
        cascade(elem, sheet).contains_key(p),
        cascade(elem, sheet)[p] == sheet.rules[i].declarations[j].value,
{
    assert(candidate(elem, sheet, p, i, j));
    let (i2, j2) = choose|i2: int, j2: int| #[trigger] wins(elem, sheet, p, i2, j2);
    lemma_winner_unique(elem, sheet, p, i, j, i2, j2);
}

/// An applicable rule: its specificity for the element, and its place in the sheet.
pub type MatchedRule = (Specificity, usize);

/// `e` names a rule of `sheet` that applies to `elem`, with the right specificity.
pub open spec fn is_matched(elem: ElementDataView, sheet: StylesheetView, e: MatchedRule) -> bool {
    &&& e.1 < sheet.rules.len()
    &&& rule_specificity(elem, sheet.rules[e.1 as int]) == Some(specificity_ints(e.0))
}

/// Every entry of `m` is an applicable rule, and every applicable rule among the first
/// `n` of the sheet is in `m`.
pub open spec fn holds_matched(
    elem: ElementDataView,
    sheet: StylesheetView,
    m: Seq<MatchedRule>,
    n: int,
) -> bool {
    &&& forall|k: int| 0 <= k < m.len() ==> is_matched(elem, sheet, #[trigger] m[k]) && m[k].1 < n
    &&& forall|i: int|
        0 <= i < n && (#[trigger] rule_specificity(elem, sheet.rules[i])) is Some ==> exists|
            k: int,
        | 0 <= k < m.len() && (#[trigger] m[k]).1 == i
}

/// `a` is applied before `b`: it is less specific, or as specific and earlier in the
/// sheet.
pub open spec fn applied_before(a: MatchedRule, b: MatchedRule) -> bool {
    specificity_lt(specificity_ints(a.0), specificity_ints(b.0)) || (a.0 == b.0 && a.1 < b.1)
}

/// `m` is in the order of application.
pub open spec fn in_order(m: Seq<MatchedRule>) -> bool {
    forall|k: int, l: int| 0 <= k < l < m.len() ==> applied_before(#[trigger] m[k], #[trigger] m[l])
}

/// The rules of `stylesheet` that apply to `elem`, in the order of the sheet.
pub fn matching_rules(elem: &ElementData, stylesheet: &Stylesheet) -> (r: Vec<MatchedRule>)
    ensures
        holds_matched(elem@, stylesheet@, r@, stylesheet@.rules.len() as int),
        forall|k: int, l: int| 0 <= k < l < r@.len() ==> (#[trigger] r@[k]).1 < (#[trigger] r@[l]).1,
{
    let mut r: Vec<MatchedRule> = Vec::new();
    let mut i: usize = 0;
    while i < stylesheet.rules.len()
        invariant
            i <= stylesheet.rules.len(),
            holds_matched(elem@, stylesheet@, r@, i as int),
            forall|k: int, l: int|
                0 <= k < l < r@.len() ==> (#[trigger] r@[k]).1 < (#[trigger] r@[l]).1,
        decreases stylesheet.rules.len() - i,
    {
        let ghost old_r = r@;
        assert(stylesheet@.rules[i as int] == stylesheet.rules@[i as int]@);
        match match_rule(elem, &stylesheet.rules[i]) {
            Some(s) => {
                r.push((s, i));
                proof {
                    assert forall|i2: int|
                        0 <= i2 < i + 1 && (#[trigger] rule_specificity(
                            elem@,
                            stylesheet@.rules[i2],
                        )) is Some implies exists|k: int|
                        0 <= k < r@.len() && (#[trigger] r@[k]).1 == i2 by {
                        if i2 < i {
                            let k = choose|k: int| 0 <= k < old_r.len() && (#[trigger] old_r[k]).1 == i2;
                            assert(r@[k] == old_r[k]);
                        } else {
                            assert(r@[r@.len() - 1].1 == i2);
                        }
                    }
                }
            },
            None => {},
        }
        i += 1;
    }
    r
}

/// The rules of `m`, put in the order of application: by rising specificity, and among
/// equals as they stand in the sheet.
pub fn sort_matched(m: &Vec<MatchedRule>) -> (r: Vec<MatchedRule>)
    requires
        forall|k: int, l: int| 0 <= k < l < m@.len() ==> (#[trigger] m@[k]).1 < (#[trigger] m@[l]).1,
    ensures
        in_order(r@),
        forall|k: int| 0 <= k < m@.len() ==> r@.contains(#[trigger] m@[k]),
        forall|k: int| 0 <= k < r@.len() ==> m@.contains(#[trigger] r@[k]),
{
    let mut r: Vec<MatchedRule> = Vec::new();
    let mut t: usize = 0;
    while t < m.len()
        invariant
            t <= m.len(),
            forall|k: int, l: int|
                0 <= k < l < m@.len() ==> (#[trigger] m@[k]).1 < (#[trigger] m@[l]).1,
            in_order(r@),
            forall|k: int| 0 <= k < t ==> r@.contains(#[trigger] m@[k]),
            forall|k: int|
                0 <= k < r@.len() ==> exists|u: int| 0 <= u < t && m@[u] == #[trigger] r@[k],
        decreases m.len() - t,
    {
        let x = m[t];
        let mut pos: usize = 0;
        while pos < r.len() && !specificity_less(&x.0, &r[pos].0)
            invariant
                pos <= r.len(),
                forall|k: int|
                    0 <= k < pos ==> !specificity_lt(
                        specificity_ints(x.0),
                        specificity_ints((#[trigger] r@[k]).0),
                    ),
            decreases r.len() - pos,
        {
            pos += 1;
        }
        let ghost old_r = r@;
        r.insert(pos, x);
        proof {
            assert forall|k: int, l: int| 0 <= k < l < r@.len() implies applied_before(
                #[trigger] r@[k],
                #[trigger] r@[l],
            ) by {
                if l < pos {
                    assert(r@[k] == old_r[k] && r@[l] == old_r[l]);
                } else if l == pos {
                    assert(r@[k] == old_r[k]);
                    let u = choose|u: int| 0 <= u < t && m@[u] == old_r[k];
                    assert(m@[u].1 < m@[t as int].1);
                } else if k < pos {
                    assert(r@[k] == old_r[k] && r@[l] == old_r[l - 1]);
                } else if k == pos {
                    assert(r@[l] == old_r[l - 1]);
                    if l - 1 > pos {
                        assert(applied_before(old_r[pos as int], old_r[l - 1]));
                    }
                } else {
                    assert(r@[k] == old_r[k - 1] && r@[l] == old_r[l - 1]);
                }
            }
            assert forall|k: int| 0 <= k < t + 1 implies r@.contains(#[trigger] m@[k]) by {
                if k < t {
                    let w = choose|w: int| 0 <= w < old_r.len() && old_r[w] == m@[k];
                    if w < pos {
                        assert(r@[w] == m@[k]);
                    } else {
                        assert(r@[w + 1] == m@[k]);
                    }
                } else {
                    assert(r@[pos as int] == m@[k]);
                }
            }
            assert forall|k: int| 0 <= k < r@.len() implies exists|u: int|
                0 <= u < t + 1 && m@[u] == #[trigger] r@[k] by {
                if k < pos {
                    assert(r@[k] == old_r[k]);
                    let u = choose|u: int| 0 <= u < t && m@[u] == old_r[k];
                    assert(m@[u] == r@[k]);
                } else if k == pos {
                    assert(m@[t as int] == r@[k]);
                } else {
                    assert(r@[k] == old_r[k - 1]);
                    let u = choose|u: int| 0 <= u < t && m@[u] == old_r[k - 1];
                    assert(m@[u] == r@[k]);
                }
            }
        }
        t += 1;
    }
    proof {
        assert forall|k: int| 0 <= k < r@.len() implies m@.contains(#[trigger] r@[k]) by {
            let u = choose|u: int| 0 <= u < t && m@[u] == r@[k];
            assert(m@[u] == r@[k]);
        }
    }
    r
}

/// While the declarations are applied rule by rule, `(l, d)` names a declaration that has
/// been applied once declaration `j` of the `k`-th rule of `rules` is next.
spec fn applied(
    rules: Seq<MatchedRule>,
    sheet: StylesheetView,
    k: int,
    j: int,
    l: int,
    d: int,
) -> bool {
    &&& 0 <= l < rules.len()
    &&& 0 <= d < sheet.rules[rules[l].1 as int].declarations.len()
    &&& (l < k || (l == k && d < j))
}

/// The declaration that `(l, d)` names.
spec fn declaration_at(rules: Seq<MatchedRule>, sheet: StylesheetView, l: int, d: int)
    -> crate::css::DeclarationView {
    sheet.rules[rules[l].1 as int].declarations[d]
}

/// What holds of the property map while the declarations are applied: `latest` tells for
/// each property which applied declaration set it last.
spec fn applying(
    rules: Seq<MatchedRule>,
    sheet: StylesheetView,
    k: int,
    j: int,
    values: Map<Seq<char>, Value>,
    latest: Map<Seq<char>, (int, int)>,
) -> bool {
    &&& forall|p: Seq<char>| #[trigger] values.contains_key(p) ==> latest.contains_key(p)
    &&& forall|p: Seq<char>| #[trigger]
        latest.contains_key(p) ==> {
            &&& applied(rules, sheet, k, j, latest[p].0, latest[p].1)
            &&& declaration_at(rules, sheet, latest[p].0, latest[p].1).name == p
            &&& values.contains_key(p)
            &&& values[p]@ == declaration_at(rules, sheet, latest[p].0, latest[p].1).value
        }
    &&& forall|l: int, d: int| #[trigger]
        applied(rules, sheet, k, j, l, d) ==> {
            let p = declaration_at(rules, sheet, l, d).name;
            &&& latest.contains_key(p)
            &&& (l < latest[p].0 || (l == latest[p].0 && d <= latest[p].1))
        }
}

/// Once every declaration has been applied, the property map is the cascade.
proof fn lemma_applied_is_cascade(
    elem: ElementDataView,
    sheet: StylesheetView,
    rules: Seq<MatchedRule>,
    values: Map<Seq<char>, Value>,
    latest: Map<Seq<char>, (int, int)>,
)
    requires
        in_order(rules),
        forall|k: int| 0 <= k < rules.len() ==> is_matched(elem, sheet, #[trigger] rules[k]),
        forall|i: int|
            0 <= i < sheet.rules.len() && (#[trigger] rule_specificity(elem, sheet.rules[i])) is Some
                ==> exists|k: int| 0 <= k < rules.len() && (#[trigger] rules[k]).1 == i,
        applying(rules, sheet, rules.len() as int, 0, values, latest),
    ensures
        values.map_values(|v: Value| v@) == cascade(elem, sheet),
{
    let props = values.map_values(|v: Value| v@);
    let n = rules.len() as int;
    assert forall|p: Seq<char>| props.contains_key(p) implies is_set(elem, sheet, p) by {
        assert(latest.contains_key(p));
        let (l, d) = latest[p];
        assert(applied(rules, sheet, n, 0, l, d));
        assert(is_matched(elem, sheet, rules[l]));
        assert(candidate(elem, sheet, p, rules[l].1 as int, d));
    }
    assert forall|p: Seq<char>| is_set(elem, sheet, p) implies props.contains_key(p) by {
        let (i, j) = choose|i: int, j: int| #[trigger] candidate(elem, sheet, p, i, j);
        let l = choose|l: int| 0 <= l < rules.len() && (#[trigger] rules[l]).1 == i;
        assert(applied(rules, sheet, n, 0, l, j));
    }
    assert forall|p: Seq<char>| props.contains_key(p) implies props[p] == cascade(elem, sheet)[p] by {
        assert(latest.contains_key(p));
        let (l, d) = latest[p];
        let i = rules[l].1 as int;
        assert(applied(rules, sheet, n, 0, l, d));
        assert(is_matched(elem, sheet, rules[l]));
        assert forall|i2: int, j2: int| #[trigger]
            candidate(elem, sheet, p, i2, j2) implies outranks(elem, sheet, i, d, i2, j2) by {
            let l2 = choose|l2: int| 0 <= l2 < rules.len() && (#[trigger] rules[l2]).1 == i2;
            assert(applied(rules, sheet, n, 0, l2, j2));
            assert(is_matched(elem, sheet, rules[l2]));
            if l2 < l {
                assert(applied_before(rules[l2], rules[l]));
            }
        }
        assert(wins(elem, sheet, p, i, d));
        lemma_cascade_winner(elem, sheet, p, i, d);
    }
    assert(props =~= cascade(elem, sheet));
}

/// The properties that the rules of `stylesheet` give to `elem`: the applicable rules are
/// put in order of rising specificity, those of equal specificity as they stand in the
/// sheet, and their declarations applied in that order, a later one replacing an earlier
/// one for the same property.
pub fn specified_values(elem: &ElementData, stylesheet: &Stylesheet) -> (values: PropertyMap)
    ensures
        values@.map_values(|v: Value| v@) == cascade(elem@, stylesheet@),
{
    let mut values: PropertyMap = StrMap::new();
    let matched = matching_rules(elem, stylesheet);
    let rules = sort_matched(&matched);
    let ghost sheet = stylesheet@;
    let ghost mut latest: Map<Seq<char>, (int, int)> = Map::empty();
    proof {
        assert forall|k: int| 0 <= k < rules@.len() implies is_matched(
            elem@,
            sheet,
            #[trigger] rules@[k],
        ) by {
            let u = choose|u: int| 0 <= u < matched@.len() && matched@[u] == rules@[k];
            assert(is_matched(elem@, sheet, matched@[u]));
        }
        assert forall|i: int|
            0 <= i < sheet.rules.len() && (#[trigger] rule_specificity(elem@, sheet.rules[i])) is Some
            implies exists|k: int| 0 <= k < rules@.len() && (#[trigger] rules@[k]).1 == i by {
            let u = choose|u: int| 0 <= u < matched@.len() && (#[trigger] matched@[u]).1 == i;
            assert(rules@.contains(matched@[u]));
            let k = choose|k: int| 0 <= k < rules@.len() && rules@[k] == matched@[u];
            assert(rules@[k].1 == i);
        }
    }
    let mut k: usize = 0;
    while k < rules.len()
        invariant
            k <= rules.len(),
            sheet == stylesheet@,
            forall|l: int| 0 <= l < rules@.len() ==> is_matched(elem@, sheet, #[trigger] rules@[l]),
            applying(rules@, sheet, k as int, 0, values@, latest),
        decreases rules.len() - k,
    {
        assert(is_matched(elem@, sheet, rules@[k as int]));
        let rule = &stylesheet.rules[rules[k].1];
        assert(sheet.rules[rules@[k as int].1 as int] == rule@);
        let mut j: usize = 0;
        while j < rule.declarations.len()
            invariant
                k < rules.len(),
                j <= rule.declarations.len(),
                sheet.rules[rules@[k as int].1 as int] == rule@,
                applying(rules@, sheet, k as int, j as int, values@, latest),
            decreases rule.declarations.len() - j,
        {
            let declaration = &rule.declarations[j];
            let name = declaration.name.clone();
            let value = declaration.value.clone();
            let ghost old_values = values@;
            let ghost old_latest = latest;
            values.insert(name, value);
            proof {
                assert(declaration@ == declaration_at(rules@, sheet, k as int, j as int));
                latest = latest.insert(declaration@.name, (k as int, j as int));
                assert forall|l: int, d: int| #[trigger]
                    applied(rules@, sheet, k as int, j + 1, l, d) implies {
                    let p = declaration_at(rules@, sheet, l, d).name;
                    &&& latest.contains_key(p)
                    &&& (l < latest[p].0 || (l == latest[p].0 && d <= latest[p].1))
                } by {
                    if !(l == k && d == j) {
                        assert(applied(rules@, sheet, k as int, j as int, l, d));
                    }
                }
                assert forall|p: Seq<char>| #[trigger] latest.contains_key(p) implies {
                    &&& applied(rules@, sheet, k as int, j + 1, latest[p].0, latest[p].1)
                    &&& declaration_at(rules@, sheet, latest[p].0, latest[p].1).name == p
                    &&& values@.contains_key(p)
                    &&& values@[p]@ == declaration_at(rules@, sheet, latest[p].0, latest[p].1).value
                } by {
                    if p != declaration@.name {
                        assert(old_latest.contains_key(p));
                        assert(applied(
                            rules@,
                            sheet,
                            k as int,
                            j as int,
                            old_latest[p].0,
                            old_latest[p].1,
                        ));
                    }
                }
            }
            j += 1;
        }
        proof {
            assert forall|l: int, d: int| #[trigger]
                applied(rules@, sheet, k + 1, 0, l, d) implies {
                let p = declaration_at(rules@, sheet, l, d).name;
                &&& latest.contains_key(p)
                &&& (l < latest[p].0 || (l == latest[p].0 && d <= latest[p].1))
            } by {
                assert(applied(rules@, sheet, k as int, j as int, l, d));
            }
            assert forall|p: Seq<char>| #[trigger] latest.contains_key(p) implies applied(
                rules@,
                sheet,
                k + 1,
                0,
                latest[p].0,
                latest[p].1,
            ) by {
                assert(applied(rules@, sheet, k as int, j as int, latest[p].0, latest[p].1));
            }
        }
        k += 1;
    }
    proof {
        lemma_applied_is_cascade(elem@, sheet, rules@, values@, latest);
    }
    values
}

/// The properties of a node: none for text, the cascade for an element.
pub open spec fn node_props(node_type: NodeTypeView, sheet: StylesheetView) -> Map<
    Seq<char>,
    ValueView,
> {
    match node_type {
        NodeTypeView::Text(_) => Map::empty(),
        NodeTypeView::Element(e) => cascade(e, sheet),
    }
}

/// The styled tree of a document: it has the shape of the document, and each node
/// carries the properties that `sheet` gives it.
pub open spec fn spec_style_tree(node: NodeView, sheet: StylesheetView) -> StyledNodeView
    decreases node,
{
    StyledNodeView {
        node,
        props: node_props(node.node_type, sheet),
        children: Seq::new(
            node.children.len(),
            |i: int|
                if 0 <= i < node.children.len() {
                    spec_style_tree(node.children[i], sheet)
                } else {
                    arbitrary()
                },
        ),
    }
}

/// Styles the whole tree below `root`.
pub fn style_tree<'a>(root: &'a Node, stylesheet: &'a Stylesheet) -> (r: StyledNode<'a>)
    ensures
        r@ == spec_style_tree(root@, stylesheet@),
        r.node == root,
        r.children@.len() == root.children@.len(),
    decreases root,
{
    let specified_values = match &root.node_type {
        NodeType::Element(elem) => specified_values(elem, stylesheet),
        NodeType::Text(_) => StrMap::new(),
    };
    let mut children: Vec<StyledNode<'a>> = Vec::new();
    let mut i: usize = 0;
    while i < root.children.len()
        invariant
            i <= root.children.len(),
            children@.len() == i,
            forall|k: int|
                0 <= k < i ==> (#[trigger] children@[k])@ == spec_style_tree(
                    root.children@[k]@,
                    stylesheet@,
                ),
        decreases root.children.len() - i,
    {
        let child = style_tree(&root.children[i], stylesheet);
        children.push(child);
        i += 1;
    }
    let r = StyledNode { node: root, specified_values, children };
    proof {
        let want = spec_style_tree(root@, stylesheet@);
        assert(r@.props =~= want.props);
        assert(r@.children.len() == want.children.len());
        root.lemma_view();
        assert forall|k: int| 0 <= k < r@.children.len() implies r@.children[k]
            == want.children[k] by {
            assert(r@.children[k] == r.children@[k]@);
            assert(root@.children[k] == root.children@[k]@);
            assert(want.children[k] == spec_style_tree(root@.children[k], stylesheet@));
        }
        assert(r@.children =~= want.children);
    }
    r
}

/// The specificity with which a list of selectors matches is that of one of its
/// selectors that match, and no matching selector has a greater one; there is none
/// exactly if no selector matches.
pub proof fn lemma_best_match_is_greatest(elem: ElementDataView, sels: Seq<SimpleSelectorView>)
    ensures
        best_match(elem, sels) is None <==> forall|k: int|
            0 <= k < sels.len() ==> !selector_matches(elem, #[trigger] sels[k]),
        best_match(elem, sels) matches Some(best) ==> {
            &&& exists|k: int|
                0 <= k < sels.len() && selector_matches(elem, #[trigger] sels[k])
                    && sels[k].specificity() == best
            &&& forall|k: int|
                0 <= k < sels.len() && selector_matches(elem, #[trigger] sels[k])
                    ==> !specificity_lt(best, sels[k].specificity())
        },
    decreases sels.len(),
{
    if sels.len() > 0 {
        let front = sels.drop_last();
        lemma_best_match_is_greatest(elem, front);
        assert forall|k: int| 0 <= k < front.len() implies front[k] == sels[k] by {}
        match best_match(elem, sels) {
            Some(best) => {
                if selector_matches(elem, sels.last()) && best == sels.last().specificity() {
                    assert(sels[sels.len() - 1] == sels.last());
                } else {
                    let k = choose|k: int|
                        0 <= k < front.len() && selector_matches(elem, #[trigger] front[k])
                            && front[k].specificity() == best;
                    assert(sels[k] == front[k]);
                }
                assert forall|k: int|
                    0 <= k < sels.len() && selector_matches(
                        elem,
                        #[trigger] sels[k],
                    ) implies !specificity_lt(best, sels[k].specificity()) by {
                    if k < front.len() {
                        assert(front[k] == sels[k]);
                    }
                }
            },
            None => {
                assert forall|k: int| 0 <= k < sels.len() implies !selector_matches(
                    elem,
                    #[trigger] sels[k],
                ) by {
                    if k < front.len() {
                        assert(front[k] == sels[k]);
                    }
                }
            },
        }
        if forall|k: int| 0 <= k < sels.len() ==> !selector_matches(elem, #[trigger] sels[k]) {
            assert forall|k: int| 0 <= k < front.len() implies !selector_matches(
                elem,
                #[trigger] front[k],
            ) by {
                assert(front[k] == sels[k]);
            }
            assert(!selector_matches(elem, sels[sels.len() - 1]));
        }
    }
}

/// Where the selectors stand in descending order of specificity, the first of them that
/// matches gives the specificity with which the list matches.
pub proof fn lemma_first_match_is_best(
    elem: ElementDataView,
    sels: Seq<SimpleSelectorView>,
    first: int,
)
    requires
        crate::css::descending(sels),
        0 <= first < sels.len(),
        selector_matches(elem, sels[first]),
        forall|k: int| 0 <= k < first ==> !selector_matches(elem, #[trigger] sels[k]),
    ensures
        best_match(elem, sels) == Some(sels[first].specificity()),
{
    lemma_best_match_is_greatest(elem, sels);
    let best = best_match(elem, sels)->0;
    let k = choose|k: int|
        0 <= k < sels.len() && selector_matches(elem, #[trigger] sels[k]) && sels[k].specificity()
            == best;
    assert(!specificity_lt(best, sels[first].specificity()));
    if first < k {
        assert(!specificity_lt(sels[first].specificity(), sels[k].specificity()));
    }
}

/// Of two rules that both apply to an element, the more specific one decides every
/// property that it sets, whichever of the two stands first in the sheet: the value is
/// that of its last declaration of the property.
pub proof fn lemma_more_specific_rule_wins(
    elem: ElementDataView,
    weak: RuleView,
    strong: RuleView,
    p: Seq<char>,
    j: int,
)
    requires
        rule_specificity(elem, weak) is Some,
        rule_specificity(elem, strong) is Some,
        specificity_lt(rule_specificity(elem, weak)->0, rule_specificity(elem, strong)->0),
        0 <= j < strong.declarations.len(),
        strong.declarations[j].name == p,
        forall|d: int| j < d < strong.declarations.len() ==> strong.declarations[d].name != p,
    ensures
        cascade(elem, StylesheetView { rules: seq![weak, strong] }).contains_key(p),
        cascade(elem, StylesheetView { rules: seq![strong, weak] }).contains_key(p),
        cascade(elem, StylesheetView { rules: seq![weak, strong] })[p]
            == strong.declarations[j].value,
        cascade(elem, StylesheetView { rules: seq![strong, weak] })[p]
            == strong.declarations[j].value,
{
    let first = StylesheetView { rules: seq![weak, strong] };
    let second = StylesheetView { rules: seq![strong, weak] };
    assert(first.rules[0] == weak && first.rules[1] == strong);
    assert(second.rules[0] == strong && second.rules[1] == weak);
    assert(wins(elem, first, p, 1, j));
    assert(wins(elem, second, p, 0, j));
    lemma_cascade_winner(elem, first, p, 1, j);
    lemma_cascade_winner(elem, second, p, 0, j);
}

} // verus!
