use vstd::prelude::*;
use crate::chars::{
    chars_of, char_is_whitespace, char_is_ascii_alphanumeric, is_whitespace,
    is_ascii_alphanumeric, starts_at, starts_with_at, string_of, push_range, push_one, range_eq,
};

verus! {

broadcast use vstd::string::group_string_axioms;

// ---------------------------------------------------------------------------------------------
// Style sheet data
// ---------------------------------------------------------------------------------------------

#[derive(Debug, Clone)]
pub struct Selector {
    pub simple_selectors: Vec<SimpleSelector>,
    pub combinators: Vec<Combinator>,
}

/// A compound selector. `classes` is a set: no class name occurs twice in it.
#[derive(Debug, Clone)]
pub struct SimpleSelector {
    pub tag_name: Option<String>,
    pub classes: Vec<String>,
    pub pseudo_classes: Vec<PseudoClass>,
    pub attributes: Vec<Attribute>,
    pub id: Option<String>,
}

#[derive(Debug, Clone)]
pub struct Attribute {
    pub name: String,
    pub operator: AttributeOperator,
}

#[derive(Debug, Copy, Clone, PartialEq, Eq, Structural)]
pub enum PseudoClass {
    FirstChild,
    LastChild,
}

#[derive(Debug, Clone)]
pub enum AttributeOperator {
    /// `[attr]`
    Exists,
    /// `[attr=value]`
    Matches(String),
    /// `[attr~=value]`
    Contains(String),
    /// `[attr|=value]`
    StartsWith(String),
}

#[derive(Debug, Copy, Clone, PartialEq, Eq, Structural)]
pub enum Combinator {
    /// No combinator: the first compound selector of a selector.
    Empty,
    /// `a > b`
    Child,
    /// `a   b`
    Descendant,
    /// `a + b`
    NextSibling,
    /// `a ~ b`
    SubsequentSibling,
}

#[derive(Debug, Clone)]
pub struct Declaration {
    pub name: String,
    pub value: String,
    pub important: bool,
}

#[derive(Debug, Clone)]
pub struct Rule {
    pub selector: Selector,
    pub declarations: Vec<Declaration>,
}

#[derive(Debug, Clone)]
pub struct StyleSheet {
    pub rules: Vec<Rule>,
}

// ---------------------------------------------------------------------------------------------
// Mathematical views
// ---------------------------------------------------------------------------------------------

pub ghost enum OperatorView {
    Exists,
    Matches(Seq<char>),
    Contains(Seq<char>),
    StartsWith(Seq<char>),
}

pub ghost struct AttributeView {
    pub name: Seq<char>,
    pub operator: OperatorView,
}

pub ghost struct SimpleSelectorView {
    pub tag_name: Option<Seq<char>>,
    pub classes: Seq<Seq<char>>,
    pub pseudo_classes: Seq<PseudoClass>,
    pub attributes: Seq<AttributeView>,
    pub id: Option<Seq<char>>,
}

pub ghost struct SelectorView {
    pub simple_selectors: Seq<SimpleSelectorView>,
    pub combinators: Seq<Combinator>,
}

pub ghost struct DeclarationView {
    pub name: Seq<char>,
    pub value: Seq<char>,
    pub important: bool,
}

pub ghost struct RuleView {
    pub selector: SelectorView,
    pub declarations: Seq<DeclarationView>,
}

pub open spec fn opt_view(o: Option<String>) -> Option<Seq<char>> {
    match o {
        Some(s) => Some(s@),
        None => None,
    }
}

impl View for AttributeOperator {
    type V = OperatorView;

    open spec fn view(&self) -> OperatorView {
        match self {
            AttributeOperator::Exists => OperatorView::Exists,
            AttributeOperator::Matches(s) => OperatorView::Matches(s@),
            AttributeOperator::Contains(s) => OperatorView::Contains(s@),
            AttributeOperator::StartsWith(s) => OperatorView::StartsWith(s@),
        }
    }
}

impl View for Attribute {
    type V = AttributeView;

    open spec fn view(&self) -> AttributeView {
        AttributeView { name: self.name@, operator: self.operator@ }
    }
}

impl View for SimpleSelector {
    type V = SimpleSelectorView;

    open spec fn view(&self) -> SimpleSelectorView {
        SimpleSelectorView {
            tag_name: opt_view(self.tag_name),
            classes: self.classes@.map_values(|c: String| c@),
            pseudo_classes: self.pseudo_classes@,
            attributes: self.attributes@.map_values(|a: Attribute| a@),
            id: opt_view(self.id),
        }
    }
}

impl View for Selector {
    type V = SelectorView;

    open spec fn view(&self) -> SelectorView {
        SelectorView {
            simple_selectors: self.simple_selectors@.map_values(|s: SimpleSelector| s@),
            combinators: self.combinators@,
        }
    }
}

impl View for Declaration {
    type V = DeclarationView;

    open spec fn view(&self) -> DeclarationView {
        DeclarationView { name: self.name@, value: self.value@, important: self.important }
    }
}

impl View for Rule {
    type V = RuleView;

    open spec fn view(&self) -> RuleView {
        RuleView {
            selector: self.selector@,
            declarations: self.declarations@.map_values(|d: Declaration| d@),
        }
    }
}

pub open spec fn selectors_view(v: Seq<Selector>) -> Seq<SelectorView> {
    v.map_values(|s: Selector| s@)
}

pub open spec fn declarations_view(v: Seq<Declaration>) -> Seq<DeclarationView> {
    v.map_values(|d: Declaration| d@)
}

pub open spec fn rules_view(v: Seq<Rule>) -> Seq<RuleView> {
    v.map_values(|r: Rule| r@)
}

pub open spec fn empty_simple_selector() -> SimpleSelectorView {
    SimpleSelectorView {
        tag_name: None,
        classes: Seq::empty(),
        pseudo_classes: Seq::empty(),
        attributes: Seq::empty(),
        id: None,
    }
}

pub open spec fn empty_selector() -> SelectorView {
    SelectorView { simple_selectors: Seq::empty(), combinators: Seq::empty() }
}

pub open spec fn empty_declaration() -> DeclarationView {
    DeclarationView { name: Seq::empty(), value: Seq::empty(), important: false }
}

/// Adds `x` to the set `s` (kept as a sequence without repetitions).
pub open spec fn set_insert(s: Seq<Seq<char>>, x: Seq<char>) -> Seq<Seq<char>> {
    if s.contains(x) {
        s
    } else {
        s.push(x)
    }
}

impl Default for SimpleSelector {
    fn default() -> (s: SimpleSelector)
        ensures
            s@ == empty_simple_selector(),
    {
        let s = SimpleSelector {
            tag_name: None,
            classes: Vec::new(),
            pseudo_classes: Vec::new(),
            attributes: Vec::new(),
            id: None,
        };
        assert(s@.classes =~= Seq::<Seq<char>>::empty());
        assert(s@.attributes =~= Seq::<AttributeView>::empty());
        s
    }
}

impl Default for Selector {
    fn default() -> (s: Selector)
        ensures
            s@ == empty_selector(),
    {
        let s = Selector { simple_selectors: Vec::new(), combinators: Vec::new() };
        assert(s@.simple_selectors =~= Seq::<SimpleSelectorView>::empty());
        s
    }
}

impl Default for Declaration {
    fn default() -> (d: Declaration)
        ensures
            d@ == empty_declaration(),
    {
        Declaration { name: String::new(), value: String::new(), important: false }
    }
}

pub type Specificity = [usize; 3];

// ---------------------------------------------------------------------------------------------
// Scanning a sequence of characters
// ---------------------------------------------------------------------------------------------

/// Sets of characters that the parser skips over.
pub enum CharClass {
    Whitespace,
    Ident,
    Except(Vec<char>),
}

pub ghost enum CharClassView {
    Whitespace,
    Ident,
    Except(Seq<char>),
}

impl View for CharClass {
    type V = CharClassView;

    open spec fn view(&self) -> CharClassView {
        match self {
            CharClass::Whitespace => CharClassView::Whitespace,
            CharClass::Ident => CharClassView::Ident,
            CharClass::Except(v) => CharClassView::Except(v@),
        }
    }
}

pub open spec fn is_ident_char(c: char) -> bool {
    is_ascii_alphanumeric(c) || c == '-' || c == '_'
}

pub open spec fn in_class(class: CharClassView, c: char) -> bool {
    match class {
        CharClassView::Whitespace => is_whitespace(c),
        CharClassView::Ident => is_ident_char(c),
        CharClassView::Except(stops) => !stops.contains(c),
    }
}

/// The first position at or after `pos` whose character is not in `class`.
pub open spec fn scan(s: Seq<char>, pos: int, class: CharClassView) -> int
    decreases s.len() - pos,
{
    if 0 <= pos < s.len() && in_class(class, s[pos]) {
        scan(s, pos + 1, class)
    } else {
        pos
    }
}

pub proof fn lemma_scan_bounds(s: Seq<char>, pos: int, class: CharClassView)
    requires
        0 <= pos <= s.len(),
    ensures
        pos <= scan(s, pos, class) <= s.len(),
        forall|i: int| pos <= i < scan(s, pos, class) ==> in_class(class, #[trigger] s[i]),
        scan(s, pos, class) < s.len() ==> !in_class(class, s[scan(s, pos, class)]),
    decreases s.len() - pos,
{
    if pos < s.len() && in_class(class, s[pos]) {
        lemma_scan_bounds(s, pos + 1, class);
    }
}

/// The position reached by stepping `n` characters forward, stopping at the end.
pub open spec fn advanced(s: Seq<char>, pos: int, n: int) -> int {
    if pos + n <= s.len() {
        pos + n
    } else {
        s.len() as int
    }
}

pub open spec fn char_at(s: Seq<char>, pos: int) -> Option<char> {
    if 0 <= pos < s.len() {
        Some(s[pos])
    } else {
        None
    }
}

/// The first position at or after `pos` where `target` starts, or the end.
pub open spec fn find_from(s: Seq<char>, pos: int, target: Seq<char>) -> int
    decreases s.len() - pos,
{
    if pos >= s.len() || starts_at(s, pos, target) {
        pos
    } else {
        find_from(s, pos + 1, target)
    }
}

pub proof fn lemma_find_from_bounds(s: Seq<char>, pos: int, target: Seq<char>)
    requires
        0 <= pos <= s.len(),
    ensures
        pos <= find_from(s, pos, target) <= s.len(),
    decreases s.len() - pos,
{
    if !(pos >= s.len() || starts_at(s, pos, target)) {
        lemma_find_from_bounds(s, pos + 1, target);
    }
}

/// The position just after the next occurrence of `target`, or the end.
pub open spec fn skip_past(s: Seq<char>, pos: int, target: Seq<char>) -> int {
    advanced(s, find_from(s, pos, target), target.len() as int)
}

pub open spec fn comment_open() -> Seq<char> {
    seq!['/', '*']
}

pub open spec fn comment_close() -> Seq<char> {
    seq!['*', '/']
}

/// One round of skipping white space followed by at most one comment.
pub open spec fn skip_space_round(s: Seq<char>, pos: int) -> int {
    let p1 = scan(s, pos, CharClassView::Whitespace);
    if starts_at(s, p1, comment_open()) {
        skip_past(s, advanced(s, p1, 2), comment_close())
    } else {
        p1
    }
}

/// The position after all the white space and comments that start at `pos`.
pub open spec fn skip_spaces(s: Seq<char>, pos: int) -> int
    decreases s.len() - pos,
{
    let p = skip_space_round(s, pos);
    if pos < p <= s.len() {
        skip_spaces(s, p)
    } else {
        pos
    }
}

pub proof fn lemma_space_round_bounds(s: Seq<char>, pos: int)
    requires
        0 <= pos <= s.len(),
    ensures
        pos <= skip_space_round(s, pos) <= s.len(),
{
    let p1 = scan(s, pos, CharClassView::Whitespace);
    lemma_scan_bounds(s, pos, CharClassView::Whitespace);
    if starts_at(s, p1, comment_open()) {
        lemma_find_from_bounds(s, advanced(s, p1, 2), comment_close());
    }
}

pub proof fn lemma_skip_spaces_bounds(s: Seq<char>, pos: int)
    requires
        0 <= pos <= s.len(),
    ensures
        pos <= skip_spaces(s, pos) <= s.len(),
    decreases s.len() - pos,
{
    let p = skip_space_round(s, pos);
    lemma_space_round_bounds(s, pos);
    if pos < p <= s.len() {
        lemma_skip_spaces_bounds(s, p);
    }
}

pub open spec fn sat_add_one(b: int) -> int {
    if b < 255 {
        b + 1
    } else {
        255
    }
}

pub open spec fn sat_sub_one(b: int) -> int {
    if b > 0 {
        b - 1
    } else {
        0
    }
}

pub open spec fn braces() -> Seq<char> {
    seq!['{', '}']
}

/// Skips a block delimited by braces, nested at most 255 deep, starting at `pos` with the
/// given balance of open braces.
pub open spec fn skip_block_from(s: Seq<char>, pos: int, balance: int) -> int
    decreases s.len() - pos,
{
    if pos < 0 || pos >= s.len() {
        pos
    } else if s[pos] == '{' || s[pos] == '}' {
        let b = if s[pos] == '{' {
            sat_add_one(balance)
        } else {
            sat_sub_one(balance)
        };
        if b == 0 {
            pos + 1
        } else {
            let q = scan(s, pos + 1, CharClassView::Except(braces()));
            if pos < q <= s.len() {
                skip_block_from(s, q, b)
            } else {
                q
            }
        }
    } else {
        pos
    }
}

pub proof fn lemma_skip_block_bounds(s: Seq<char>, pos: int, balance: int)
    requires
        0 <= pos <= s.len(),
    ensures
        pos <= skip_block_from(s, pos, balance) <= s.len(),
    decreases s.len() - pos,
{
    if pos < s.len() && (s[pos] == '{' || s[pos] == '}') {
        lemma_scan_bounds(s, pos + 1, CharClassView::Except(braces()));
        let b = if s[pos] == '{' {
            sat_add_one(balance)
        } else {
            sat_sub_one(balance)
        };
        let q = scan(s, pos + 1, CharClassView::Except(braces()));
        if b != 0 && pos < q <= s.len() {
            lemma_skip_block_bounds(s, q, b);
        }
    }
}

pub open spec fn at_rule_stops() -> Seq<char> {
    seq![';', '{']
}

/// Skips an at-rule: up to the next `;` (included) or over the next block.
pub open spec fn skip_at_rule_from(s: Seq<char>, pos: int) -> int {
    let q = scan(s, pos, CharClassView::Except(at_rule_stops()));
    match char_at(s, q) {
        Some(';') => advanced(s, q, 1),
        Some('{') => skip_block_from(s, q, 0),
        _ => q,
    }
}

/// The value of an attribute selector, quoted or not, and the position after it.
pub open spec fn attribute_value_from(s: Seq<char>, pos: int) -> (Seq<char>, int) {
    match char_at(s, pos) {
        Some(delim) if delim == '"' || delim == '\'' => {
            let p1 = advanced(s, pos, 1);
            let q = scan(s, p1, CharClassView::Except(seq![delim]));
            (s.subrange(p1, q), advanced(s, q, 1))
        },
        _ => {
            let q = scan(s, pos, CharClassView::Ident);
            (s.subrange(pos, q), q)
        },
    }
}

/// The position of the last character of `v[..end]` that is not white space, plus one.
pub open spec fn trim_end_index(v: Seq<char>, end: int) -> int
    decreases end,
{
    if end > 0 && is_whitespace(v[end - 1]) {
        trim_end_index(v, end - 1)
    } else {
        end
    }
}

/// `v` without its leading and trailing white space.
pub open spec fn trim(v: Seq<char>) -> Seq<char> {
    let start = scan(v, 0, CharClassView::Whitespace);
    let end = trim_end_index(v, v.len() as int);
    if start < end {
        v.subrange(start, end)
    } else {
        Seq::empty()
    }
}

pub proof fn lemma_trim_end_bounds(v: Seq<char>, end: int)
    requires
        0 <= end <= v.len(),
    ensures
        0 <= trim_end_index(v, end) <= end,
        forall|i: int| trim_end_index(v, end) <= i < end ==> is_whitespace(#[trigger] v[i]),
        trim_end_index(v, end) > 0 ==> !is_whitespace(v[trim_end_index(v, end) - 1]),
    decreases end,
{
    if end > 0 && is_whitespace(v[end - 1]) {
        lemma_trim_end_bounds(v, end - 1);
    }
}


// ---------------------------------------------------------------------------------------------
// Declarations
// ---------------------------------------------------------------------------------------------

pub open spec fn value_stops() -> Seq<char> {
    seq!['"', ';', '}', '!']
}

/// Where the value of a declaration that starts at `pos` ends, and whether it is marked
/// `!important` (the flag `important` is kept when it was already set).
pub open spec fn value_end(s: Seq<char>, pos: int, important: bool) -> (int, bool)
    decreases s.len() - pos,
{
    if pos < 0 || pos >= s.len() {
        (pos, important)
    } else {
        let q = scan(s, pos, CharClassView::Except(value_stops()));
        match char_at(s, q) {
            Some('"') => {
                let r = advanced(
                    s,
                    scan(s, advanced(s, q, 1), CharClassView::Except(seq!['"'])),
                    1,
                );
                if pos < r <= s.len() {
                    value_end(s, r, important)
                } else {
                    (r, important)
                }
            },
            Some('!') => (q, true),
            _ => (q, important),
        }
    }
}

pub proof fn lemma_value_end_bounds(s: Seq<char>, pos: int, important: bool)
    requires
        0 <= pos <= s.len(),
    ensures
        pos <= value_end(s, pos, important).0 <= s.len(),
    decreases s.len() - pos,
{
    if pos < s.len() {
        let q = scan(s, pos, CharClassView::Except(value_stops()));
        lemma_scan_bounds(s, pos, CharClassView::Except(value_stops()));
        if char_at(s, q) == Some('"') {
            lemma_scan_bounds(s, advanced(s, q, 1), CharClassView::Except(seq!['"']));
            let r = advanced(s, scan(s, advanced(s, q, 1), CharClassView::Except(seq!['"'])), 1);
            if pos < r <= s.len() {
                lemma_value_end_bounds(s, r, important);
            }
        }
    }
}

/// The state of the declaration parser: the position, the declarations done, and the one
/// being read.
pub ghost struct DeclState {
    pub pos: int,
    pub declarations: Seq<DeclarationView>,
    pub current: DeclarationView,
}

/// One step of the declaration parser; the flag tells whether the block was closed.
pub open spec fn decl_step(s: Seq<char>, st: DeclState) -> (DeclState, bool) {
    let p1 = skip_spaces(s, st.pos);
    match char_at(s, p1) {
        Some(':') => {
            let p2 = skip_spaces(s, advanced(s, p1, 1));
            let (p3, important) = value_end(s, p2, st.current.important);
            let value = trim(s.subrange(p2, p3));
            let p4 = if important {
                scan(s, p3, CharClassView::Except(seq![';', '}']))
            } else {
                p3
            };
            (
                DeclState {
                    pos: p4,
                    current: DeclarationView { value, important, ..st.current },
                    ..st
                },
                false,
            )
        },
        Some(';') => (
            DeclState {
                pos: advanced(s, p1, 1),
                declarations: st.declarations.push(st.current),
                current: empty_declaration(),
            },
            false,
        ),
        Some('}') => (DeclState { pos: advanced(s, p1, 1), ..st }, true),
        _ => {
            let q = scan(s, p1, CharClassView::Ident);
            if q > p1 {
                (
                    DeclState {
                        pos: q,
                        current: DeclarationView { name: trim(s.subrange(p1, q)), ..st.current },
                        ..st
                    },
                    false,
                )
            } else {
                (DeclState { pos: advanced(s, p1, 1), ..st }, false)
            }
        },
    }
}

/// Runs the declaration parser until the end of the input or of the block.
pub open spec fn decl_loop(s: Seq<char>, st: DeclState) -> DeclState
    decreases s.len() - st.pos,
{
    if st.pos < 0 || st.pos >= s.len() {
        st
    } else {
        let (next, done) = decl_step(s, st);
        if done {
            next
        } else if st.pos < next.pos <= s.len() {
            decl_loop(s, next)
        } else {
            next
        }
    }
}

pub proof fn lemma_decl_step_progress(s: Seq<char>, st: DeclState)
    requires
        0 <= st.pos < s.len(),
    ensures
        st.pos < decl_step(s, st).0.pos <= s.len(),
{
    let p1 = skip_spaces(s, st.pos);
    lemma_skip_spaces_bounds(s, st.pos);
    lemma_scan_bounds(s, p1, CharClassView::Ident);
    if char_at(s, p1) == Some(':') {
        let p2 = skip_spaces(s, advanced(s, p1, 1));
        lemma_skip_spaces_bounds(s, advanced(s, p1, 1));
        lemma_value_end_bounds(s, p2, st.current.important);
        let p3 = value_end(s, p2, st.current.important).0;
        lemma_scan_bounds(s, p3, CharClassView::Except(seq![';', '}']));
    }
}

/// The declarations of a block that starts at `pos`: those closed by `;`, then the last one
/// if it has a name.
pub open spec fn parse_declarations_from(s: Seq<char>, pos: int) -> (Seq<DeclarationView>, int) {
    let last = decl_loop(
        s,
        DeclState { pos, declarations: Seq::empty(), current: empty_declaration() },
    );
    let declarations = if last.current.name.len() > 0 {
        last.declarations.push(last.current)
    } else {
        last.declarations
    };
    (declarations, last.pos)
}

pub proof fn lemma_decl_loop_bounds(s: Seq<char>, st: DeclState)
    requires
        0 <= st.pos <= s.len(),
    ensures
        st.pos <= decl_loop(s, st).pos <= s.len(),
    decreases s.len() - st.pos,
{
    if st.pos < s.len() {
        lemma_decl_step_progress(s, st);
        let (next, done) = decl_step(s, st);
        if !done {
            lemma_decl_loop_bounds(s, next);
        }
    }
}


// ---------------------------------------------------------------------------------------------
// Selectors
// ---------------------------------------------------------------------------------------------

/// The state of the selector parser.
pub ghost struct SelState {
    pub pos: int,
    /// Whether the selector being read only uses supported features.
    pub supported: bool,
    pub selectors: Seq<SelectorView>,
    /// The selector being read.
    pub sel: SelectorView,
    /// The compound selector being read.
    pub simple: SimpleSelectorView,
    /// The combinator that precedes `simple`.
    pub comb: Combinator,
}

/// The name of an attribute selector that starts at `pos` (a namespace prefix `ns|` becomes
/// `ns:`), and the position after it.
pub open spec fn attribute_name_from(s: Seq<char>, pos: int) -> (Seq<char>, int) {
    let q = scan(s, pos, CharClassView::Ident);
    let name = s.subrange(pos, q);
    if char_at(s, q) == Some('|') && !starts_at(s, q, seq!['|', '=']) {
        let q1 = advanced(s, q, 1);
        let q2 = scan(s, q1, CharClassView::Ident);
        (name + seq![':'] + s.subrange(q1, q2), q2)
    } else {
        (name, q)
    }
}

/// An attribute selector with an operator of `width` characters at `pos`: its value and the
/// position after the closing bracket.
pub open spec fn attribute_operand(s: Seq<char>, pos: int, width: int) -> (Seq<char>, int) {
    let p = skip_spaces(s, advanced(s, pos, width));
    let (value, q) = attribute_value_from(s, p);
    (value, advanced(s, skip_spaces(s, q), 1))
}

/// The attribute selector that starts at `pos` (on `[`): the attribute if it is supported,
/// and the position after it.
pub open spec fn attribute_from(s: Seq<char>, pos: int) -> (Option<AttributeView>, int) {
    let p1 = skip_spaces(s, advanced(s, pos, 1));
    let (name, q) = attribute_name_from(s, p1);
    let p2 = skip_spaces(s, q);
    match char_at(s, p2) {
        Some(']') => (
            Some(AttributeView { name, operator: OperatorView::Exists }),
            advanced(s, p2, 1),
        ),
        Some('=') => {
            let (v, e) = attribute_operand(s, p2, 1);
            (Some(AttributeView { name, operator: OperatorView::Matches(v) }), e)
        },
        Some('~') => {
            let (v, e) = attribute_operand(s, p2, 2);
            (Some(AttributeView { name, operator: OperatorView::Contains(v) }), e)
        },
        Some('|') => {
            let (v, e) = attribute_operand(s, p2, 2);
            (Some(AttributeView { name, operator: OperatorView::StartsWith(v) }), e)
        },
        _ => (None, advanced(s, skip_spaces(s, advanced(s, p2, 2)), 1)),
    }
}

/// The pseudo-class that starts at `pos` (on `:`): the pseudo-class if it is supported, and
/// the position after it.
pub open spec fn pseudo_class_from(s: Seq<char>, pos: int) -> (Option<PseudoClass>, int) {
    let p1 = advanced(s, pos, 1);
    let element = char_at(s, p1) == Some(':');
    let p2 = if element {
        advanced(s, p1, 1)
    } else {
        p1
    };
    let q = scan(s, p2, CharClassView::Ident);
    let name = s.subrange(p2, q);
    let pc = if name == "first-child"@ {
        Some(PseudoClass::FirstChild)
    } else if name == "last-child"@ {
        Some(PseudoClass::LastChild)
    } else {
        None
    };
    let e = if char_at(s, q) == Some('(') {
        advanced(s, scan(s, q, CharClassView::Except(seq![')'])), 1)
    } else {
        q
    };
    (if element { None } else { pc }, e)
}

/// The selector parser's step when it meets something else than a simple selector's
/// component: the end of a compound selector.
pub open spec fn sel_boundary_step(s: Seq<char>, st: SelState) -> (SelState, bool) {
    let p1 = skip_spaces(s, st.pos);
    let sel = SelectorView {
        simple_selectors: st.sel.simple_selectors.push(st.simple),
        combinators: st.sel.combinators.push(st.comb),
    };
    let base = SelState { sel, simple: empty_simple_selector(), ..st };
    match char_at(s, p1) {
        Some(',') => (
            SelState {
                pos: skip_spaces(s, advanced(s, p1, 1)),
                supported: true,
                selectors: if st.supported {
                    st.selectors.push(sel)
                } else {
                    st.selectors
                },
                sel: empty_selector(),
                simple: empty_simple_selector(),
                comb: Combinator::Empty,
            },
            false,
        ),
        Some('{') => (SelState { pos: advanced(s, p1, 1), ..base }, true),
        Some('>') => (
            SelState { pos: skip_spaces(s, advanced(s, p1, 1)), comb: Combinator::Child, ..base },
            false,
        ),
        Some('+') => (
            SelState {
                pos: skip_spaces(s, advanced(s, p1, 1)),
                comb: Combinator::NextSibling,
                ..base
            },
            false,
        ),
        Some('~') => (
            SelState {
                pos: skip_spaces(s, advanced(s, p1, 1)),
                comb: Combinator::SubsequentSibling,
                ..base
            },
            false,
        ),
        _ => if p1 > st.pos {
            (SelState { pos: p1, comb: Combinator::Descendant, ..base }, false)
        } else {
            (SelState { pos: advanced(s, p1, 1), ..base }, false)
        },
    }
}

/// One step of the selector parser; the flag tells whether the declaration block was opened.
pub open spec fn sel_step(s: Seq<char>, st: SelState) -> (SelState, bool) {
    let simple = st.simple;
    match char_at(s, st.pos) {
        Some('#') => {
            let p1 = advanced(s, st.pos, 1);
            let q = scan(s, p1, CharClassView::Ident);
            (
                SelState {
                    pos: q,
                    simple: SimpleSelectorView { id: Some(s.subrange(p1, q)), ..simple },
                    ..st
                },
                false,
            )
        },
        Some('.') => {
            let p1 = advanced(s, st.pos, 1);
            let q = scan(s, p1, CharClassView::Ident);
            (
                SelState {
                    pos: q,
                    simple: SimpleSelectorView {
                        classes: set_insert(simple.classes, s.subrange(p1, q)),
                        ..simple
                    },
                    ..st
                },
                false,
            )
        },
        Some('[') => {
            let (attr, e) = attribute_from(s, st.pos);
            match attr {
                Some(a) => (
                    SelState {
                        pos: e,
                        simple: SimpleSelectorView {
                            attributes: simple.attributes.push(a),
                            ..simple
                        },
                        ..st
                    },
                    false,
                ),
                None => (SelState { pos: e, supported: false, ..st }, false),
            }
        },
        Some(':') => {
            let (pc, e) = pseudo_class_from(s, st.pos);
            match pc {
                Some(c) => (
                    SelState {
                        pos: e,
                        simple: SimpleSelectorView {
                            pseudo_classes: simple.pseudo_classes.push(c),
                            ..simple
                        },
                        ..st
                    },
                    false,
                ),
                None => (SelState { pos: e, supported: false, ..st }, false),
            }
        },
        Some('*') => (SelState { pos: advanced(s, st.pos, 1), ..st }, false),
        _ => {
            let q = scan(s, st.pos, CharClassView::Ident);
            if q > st.pos {
                (
                    SelState {
                        pos: q,
                        simple: SimpleSelectorView {
                            tag_name: Some(s.subrange(st.pos, q)),
                            ..simple
                        },
                        ..st
                    },
                    false,
                )
            } else {
                sel_boundary_step(s, st)
            }
        },
    }
}

/// Runs the selector parser until the end of the input or the opening of a block.
pub open spec fn sel_loop(s: Seq<char>, st: SelState) -> SelState
    decreases s.len() - st.pos,
{
    if st.pos < 0 || st.pos >= s.len() {
        st
    } else {
        let (next, done) = sel_step(s, st);
        if done {
            next
        } else if st.pos < next.pos <= s.len() {
            sel_loop(s, next)
        } else {
            next
        }
    }
}

pub open spec fn sel_init(pos: int) -> SelState {
    SelState {
        pos,
        supported: true,
        selectors: Seq::empty(),
        sel: empty_selector(),
        simple: empty_simple_selector(),
        comb: Combinator::Empty,
    }
}

/// The selectors of a rule that starts at `pos` (unsupported ones are left out), and the
/// position after the opening brace of its block.
pub open spec fn parse_selectors_from(s: Seq<char>, pos: int) -> (Seq<SelectorView>, int) {
    let last = sel_loop(s, sel_init(pos));
    let selectors = if last.supported {
        last.selectors.push(last.sel)
    } else {
        last.selectors
    };
    (selectors, last.pos)
}

pub proof fn lemma_attribute_bounds(s: Seq<char>, pos: int)
    requires
        0 <= pos < s.len(),
    ensures
        pos < attribute_from(s, pos).1 <= s.len(),
{
    let p1 = skip_spaces(s, advanced(s, pos, 1));
    lemma_skip_spaces_bounds(s, advanced(s, pos, 1));
    let q0 = scan(s, p1, CharClassView::Ident);
    lemma_scan_bounds(s, p1, CharClassView::Ident);
    lemma_scan_bounds(s, advanced(s, q0, 1), CharClassView::Ident);
    let (name, q) = attribute_name_from(s, p1);
    let p2 = skip_spaces(s, q);
    lemma_skip_spaces_bounds(s, q);
    lemma_skip_spaces_bounds(s, advanced(s, p2, 2));
    lemma_operand_bounds(s, p2, 1);
    lemma_operand_bounds(s, p2, 2);
}

pub proof fn lemma_operand_bounds(s: Seq<char>, pos: int, width: int)
    requires
        0 <= pos <= s.len(),
        width >= 0,
    ensures
        pos <= attribute_operand(s, pos, width).1 <= s.len(),
{
    let p = skip_spaces(s, advanced(s, pos, width));
    lemma_skip_spaces_bounds(s, advanced(s, pos, width));
    lemma_scan_bounds(s, p, CharClassView::Ident);
    lemma_scan_bounds(s, advanced(s, p, 1), CharClassView::Except(seq!['"']));
    lemma_scan_bounds(s, advanced(s, p, 1), CharClassView::Except(seq!['\'']));
    let q = attribute_value_from(s, p).1;
    lemma_skip_spaces_bounds(s, q);
}

pub proof fn lemma_pseudo_class_bounds(s: Seq<char>, pos: int)
    requires
        0 <= pos < s.len(),
    ensures
        pos < pseudo_class_from(s, pos).1 <= s.len(),
{
    let p1 = advanced(s, pos, 1);
    let p2 = if char_at(s, p1) == Some(':') {
        advanced(s, p1, 1)
    } else {
        p1
    };
    lemma_scan_bounds(s, p2, CharClassView::Ident);
    let q = scan(s, p2, CharClassView::Ident);
    lemma_scan_bounds(s, q, CharClassView::Except(seq![')']));
}

pub proof fn lemma_sel_step_progress(s: Seq<char>, st: SelState)
    requires
        0 <= st.pos < s.len(),
    ensures
        st.pos < sel_step(s, st).0.pos <= s.len(),
{
    let p1 = advanced(s, st.pos, 1);
    lemma_scan_bounds(s, p1, CharClassView::Ident);
    lemma_scan_bounds(s, st.pos, CharClassView::Ident);
    lemma_skip_spaces_bounds(s, st.pos);
    let b = skip_spaces(s, st.pos);
    lemma_skip_spaces_bounds(s, advanced(s, b, 1));
    if s[st.pos] == '[' {
        lemma_attribute_bounds(s, st.pos);
    }
    if s[st.pos] == ':' {
        lemma_pseudo_class_bounds(s, st.pos);
    }
}

pub proof fn lemma_sel_loop_bounds(s: Seq<char>, st: SelState)
    requires
        0 <= st.pos <= s.len(),
    ensures
        st.pos <= sel_loop(s, st).pos <= s.len(),
    decreases s.len() - st.pos,
{
    if st.pos < s.len() {
        lemma_sel_step_progress(s, st);
        let (next, done) = sel_step(s, st);
        if !done {
            lemma_sel_loop_bounds(s, next);
        }
    }
}


// ---------------------------------------------------------------------------------------------
// Style sheets
// ---------------------------------------------------------------------------------------------

/// One rule per selector, all sharing the same declarations.
pub open spec fn rules_for(
    selectors: Seq<SelectorView>,
    declarations: Seq<DeclarationView>,
) -> Seq<RuleView> {
    selectors.map_values(|sel: SelectorView| RuleView { selector: sel, declarations })
}

/// One step of the style sheet parser: skips an at-rule or reads a rule. The flag tells
/// whether the end was reached.
pub open spec fn sheet_step(s: Seq<char>, pos: int, rules: Seq<RuleView>) -> (int, Seq<RuleView>, bool) {
    let p1 = skip_spaces(s, pos);
    match char_at(s, p1) {
        None => (p1, rules, true),
        Some('@') => (skip_at_rule_from(s, p1), rules, false),
        _ => {
            let (selectors, p2) = parse_selectors_from(s, p1);
            let (declarations, p3) = parse_declarations_from(s, p2);
            (p3, rules + rules_for(selectors, declarations), false)
        },
    }
}

/// The rules of the style sheet read from `pos` on, after `rules`.
pub open spec fn sheet_loop(s: Seq<char>, pos: int, rules: Seq<RuleView>) -> Seq<RuleView>
    decreases s.len() - pos,
{
    if pos < 0 || pos >= s.len() {
        rules
    } else {
        let (next, more, done) = sheet_step(s, pos, rules);
        if done {
            more
        } else if pos < next <= s.len() {
            sheet_loop(s, next, more)
        } else {
            more
        }
    }
}

/// The rules of a style sheet: at-rules are skipped, and each selector of a rule gives a rule
/// of its own.
pub open spec fn parse_sheet(s: Seq<char>, pos: int) -> Seq<RuleView> {
    sheet_loop(s, pos, Seq::empty())
}

pub proof fn lemma_sheet_step_progress(s: Seq<char>, pos: int, rules: Seq<RuleView>)
    requires
        0 <= pos < s.len(),
    ensures
        sheet_step(s, pos, rules).2 || pos < sheet_step(s, pos, rules).0 <= s.len(),
{
    let p1 = skip_spaces(s, pos);
    lemma_skip_spaces_bounds(s, pos);
    if p1 < s.len() {
        if s[p1] == '@' {
            lemma_scan_bounds(s, p1, CharClassView::Except(at_rule_stops()));
            let q = scan(s, p1, CharClassView::Except(at_rule_stops()));
            lemma_skip_block_bounds(s, q, 0);
            assert(!at_rule_stops().contains('@')) by {
                assert(at_rule_stops()[0] != '@' && at_rule_stops()[1] != '@');
            }
        } else {
            lemma_sel_step_progress(s, sel_init(p1));
            let (n, done) = sel_step(s, sel_init(p1));
            if !done {
                lemma_sel_loop_bounds(s, n);
            }
            let p2 = parse_selectors_from(s, p1).1;
            lemma_decl_loop_bounds(
                s,
                DeclState { pos: p2, declarations: Seq::empty(), current: empty_declaration() },
            );
        }
    }
}

/// The specificity of a selector made of the given compound selectors: the numbers of ids,
/// of classes, pseudo-classes and attributes, and of tag names, each saturating at the
/// largest machine number.
pub open spec fn specificity_of(sels: Seq<SimpleSelectorView>) -> (int, int, int)
    decreases sels.len(),
{
    if sels.len() == 0 {
        (0, 0, 0)
    } else {
        let (a, b, c) = specificity_of(sels.drop_last());
        let sel = sels.last();
        let ids: int = if sel.id is Some { 1 } else { 0 };
        let tags: int = if sel.tag_name is Some { 1 } else { 0 };
        (
            sat_usize(a + ids),
            sat_usize(sat_usize(sat_usize(b + sel.classes.len()) + sel.pseudo_classes.len())
                + sel.attributes.len()),
            sat_usize(c + tags),
        )
    }
}

pub open spec fn sat_usize(x: int) -> int {
    if x > usize::MAX {
        usize::MAX as int
    } else {
        x
    }
}

// ---------------------------------------------------------------------------------------------
// The parser
// ---------------------------------------------------------------------------------------------

/// A parser over the characters of a style sheet; `offset` never goes past the end.
pub struct CssParser {
    input: Vec<char>,
    offset: usize,
}

impl CssParser {
    #[verifier::type_invariant]
    spec fn inv(self) -> bool {
        self.offset <= self.input@.len()
    }

    pub closed spec fn text(self) -> Seq<char> {
        self.input@
    }

    pub closed spec fn pos(self) -> int {
        self.offset as int
    }

    /// A parser at the start of `input`.
    pub fn new(input: &str) -> (p: CssParser)
        ensures
            p.text() == input@,
            p.pos() == 0,
    {
        CssParser { input: chars_of(input), offset: 0 }
    }

    fn eof(&self) -> (b: bool)
        ensures
            b == (self.pos() >= self.text().len()),
    {
        self.offset >= self.input.len()
    }

    fn next(&self) -> (c: Option<char>)
        ensures
            c == char_at(self.text(), self.pos()),
    {
        if self.offset < self.input.len() {
            Some(self.input[self.offset])
        } else {
            None
        }
    }

    fn starts_with(&self, s: &str) -> (b: bool)
        ensures
            b == starts_at(self.text(), self.pos(), s@),
    {
        let pat = chars_of(s);
        starts_with_at(&self.input, self.offset, &pat)
    }

    fn advance(&mut self, n: usize)
        ensures
            final(self).text() == old(self).text(),
            final(self).pos() == advanced(old(self).text(), old(self).pos(), n as int),
    {
        proof {
            use_type_invariant(&*self);
        }
        if n <= self.input.len() - self.offset {
            self.offset = self.offset + n;
        } else {
            self.offset = self.input.len();
        }
    }

    fn advance_while(&mut self, class: &CharClass)
        ensures
            final(self).text() == old(self).text(),
            final(self).pos() == scan(old(self).text(), old(self).pos(), class@),
    {
        proof {
            use_type_invariant(&*self);
        }
        let ghost s = self.input@;
        let ghost start = self.offset as int;
        loop
            invariant
                self.input@ == s,
                start <= self.offset <= s.len(),
                scan(s, self.offset as int, class@) == scan(s, start, class@),
            ensures
                self.input@ == s,
                self.offset as int == scan(s, start, class@),
            decreases s.len() - self.offset,
        {
            if self.offset >= self.input.len() {
                break;
            }
            let c = self.input[self.offset];
            let keep = match class {
                CharClass::Whitespace => char_is_whitespace(c),
                CharClass::Ident => char_is_ascii_alphanumeric(c) || c == '-' || c == '_',
                CharClass::Except(stops) => !contains_char(stops, c),
            };
            if !keep {
                break;
            }
            self.offset = self.offset + 1;
        }
    }

    fn advance_until(&mut self, target: &str)
        ensures
            final(self).text() == old(self).text(),
            final(self).pos() == skip_past(old(self).text(), old(self).pos(), target@),
    {
        proof {
            use_type_invariant(&*self);
        }
        let ghost s = self.input@;
        let ghost start = self.offset as int;
        while !self.eof() && !self.starts_with(target)
            invariant
                self.input@ == s,
                start <= self.offset <= s.len(),
                find_from(s, self.offset as int, target@) == find_from(s, start, target@),
            decreases s.len() - self.offset,
        {
            self.advance(1);
        }
        let n = chars_of(target).len();
        self.advance(n);
    }

    fn skip_spaces_and_comments(&mut self)
        ensures
            final(self).text() == old(self).text(),
            final(self).pos() == skip_spaces(old(self).text(), old(self).pos()),
    {
        proof {
            use_type_invariant(&*self);
            reveal_strlit("/*");
            reveal_strlit("*/");
        }
        let ghost s = self.input@;
        let ghost start = self.offset as int;
        loop
            invariant
                self.input@ == s,
                start <= self.offset <= s.len(),
                skip_spaces(s, self.offset as int) == skip_spaces(s, start),
            ensures
                self.input@ == s,
                self.offset as int == skip_spaces(s, start),
            decreases s.len() - self.offset,
        {
            let offset = self.offset;
            proof {
                lemma_space_round_bounds(s, offset as int);
                lemma_scan_bounds(s, offset as int, CharClassView::Whitespace);
            }
            self.advance_while(&CharClass::Whitespace);
            if self.starts_with("/*") {
                self.advance(2);
                self.advance_until("*/");
            }
            proof {
                use_type_invariant(&*self);
            }
            proof {
                reveal_strlit("/*");
                reveal_strlit("*/");
                assert("/*"@.len() == 2 && "/*"@[0] == '/' && "/*"@[1] == '*');
                assert("*/"@.len() == 2 && "*/"@[0] == '*' && "*/"@[1] == '/');
                assert("/*"@ =~= comment_open());
                assert("*/"@ =~= comment_close());
                assert(self.offset as int == skip_space_round(s, offset as int));
            }
            if offset == self.offset {
                break;
            }
        }
    }

    fn skip_ident(&mut self)
        ensures
            final(self).text() == old(self).text(),
            final(self).pos() == scan(old(self).text(), old(self).pos(), CharClassView::Ident),
    {
        self.advance_while(&CharClass::Ident);
    }

    fn skip_block(&mut self)
        ensures
            final(self).text() == old(self).text(),
            final(self).pos() == skip_block_from(old(self).text(), old(self).pos(), 0),
    {
        proof {
            use_type_invariant(&*self);
        }
        let ghost s = self.input@;
        let ghost start = self.offset as int;
        let mut balance = 0u8;
        loop
            invariant_except_break
                skip_block_from(s, self.offset as int, balance as int) == skip_block_from(
                    s,
                    start,
                    0,
                ),
            invariant
                self.input@ == s,
                start <= self.offset <= s.len(),
            ensures
                self.input@ == s,
                self.offset as int == skip_block_from(s, start, 0),
            decreases s.len() - self.offset,
        {
            if self.eof() {
                break;
            }
            let ghost here = self.offset as int;
            match self.next() {
                Some('{') => {
                    self.advance(1);
                    balance = balance.saturating_add(1);
                },
                Some('}') => {
                    self.advance(1);
                    balance = balance.saturating_sub(1);
                },
                _ => break,
            }
            if balance == 0 {
                break;
            }
            proof {
                lemma_scan_bounds(s, here + 1, CharClassView::Except(braces()));
            }
            let stops = vec!['{', '}'];
            assert(stops@ == braces());
            self.advance_while(&CharClass::Except(stops));
        }
    }

    fn skip_at_rule(&mut self)
        ensures
            final(self).text() == old(self).text(),
            final(self).pos() == skip_at_rule_from(old(self).text(), old(self).pos()),
    {
        let stops = vec![';', '{'];
        assert(stops@ == at_rule_stops());
        self.advance_while(&CharClass::Except(stops));
        match self.next() {
            Some(';') => self.advance(1),
            Some('{') => self.skip_block(),
            _ => (),
        }
    }

    fn attribute_value(&mut self) -> (v: String)
        ensures
            final(self).text() == old(self).text(),
            (v@, final(self).pos()) == attribute_value_from(old(self).text(), old(self).pos()),
    {
        proof {
            use_type_invariant(&*self);
        }
        match self.next() {
            Some(delim) if delim == '"' || delim == '\'' => {
                self.advance(1);
                let start_offset = self.offset;
                proof {
                    use_type_invariant(&*self);
                    lemma_scan_bounds(self.input@, start_offset as int, CharClassView::Except(seq![delim]));
                }
                let stops = vec![delim];
                assert(stops@ == seq![delim]);
                self.advance_while(&CharClass::Except(stops));
                let end_offset = self.offset;
                self.advance(1);
                string_of(&self.input, start_offset, end_offset)
            },
            _ => {
                let offset = self.offset;
                proof {
                    lemma_scan_bounds(self.input@, offset as int, CharClassView::Ident);
                }
                self.skip_ident();
                string_of(&self.input, offset, self.offset)
            },
        }
    }

    /// Reads the end of a declaration's value, `self.pos()` being where the value starts.
    fn value_end(&mut self, important: bool) -> (imp: bool)
        ensures
            final(self).text() == old(self).text(),
            (final(self).pos(), imp) == value_end(old(self).text(), old(self).pos(), important),
    {
        proof {
            use_type_invariant(&*self);
        }
        let ghost s = self.input@;
        let ghost start = self.offset as int;
        let mut imp = important;
        loop
            invariant_except_break
                value_end(s, self.offset as int, imp) == value_end(s, start, important),
            invariant
                self.input@ == s,
                start <= self.offset <= s.len(),
            ensures
                (self.offset as int, imp) == value_end(s, start, important),
            decreases s.len() - self.offset,
        {
            if self.eof() {
                break;
            }
            let ghost here = self.offset as int;
            let stops = vec!['"', ';', '}', '!'];
            assert(stops@ == value_stops());
            self.advance_while(&CharClass::Except(stops));
            proof {
                lemma_scan_bounds(s, here, CharClassView::Except(value_stops()));
            }
            match self.next() {
                Some('"') => {
                    self.advance(1);
                    let quote = vec!['"'];
                    assert(quote@ == seq!['"']);
                    proof {
                        use_type_invariant(&*self);
                        lemma_scan_bounds(s, self.offset as int, CharClassView::Except(seq!['"']));
                    }
                    self.advance_while(&CharClass::Except(quote));
                    self.advance(1);
                },
                Some('!') => {
                    imp = true;
                    break;
                },
                _ => break,
            }
        }
        imp
    }

    /// Parses the declarations of a block, up to the closing brace.
    pub fn parse_declarations(&mut self) -> (declarations: Vec<Declaration>)
        ensures
            final(self).text() == old(self).text(),
            (declarations_view(declarations@), final(self).pos()) == parse_declarations_from(
                old(self).text(),
                old(self).pos(),
            ),
    {
        proof {
            use_type_invariant(&*self);
        }
        let ghost s = self.input@;
        let ghost start = self.offset as int;
        let ghost init = DeclState {
            pos: start,
            declarations: Seq::empty(),
            current: empty_declaration(),
        };
        let mut declarations: Vec<Declaration> = Vec::new();
        let mut d = Declaration::default();
        assert(declarations_view(declarations@) =~= Seq::<DeclarationView>::empty());
        loop
            invariant_except_break
                decl_loop(
                    s,
                    DeclState {
                        pos: self.offset as int,
                        declarations: declarations_view(declarations@),
                        current: d@,
                    },
                ) == decl_loop(s, init),
            invariant
                self.input@ == s,
                start <= self.offset <= s.len(),
            ensures
                (DeclState {
                    pos: self.offset as int,
                    declarations: declarations_view(declarations@),
                    current: d@,
                }) == decl_loop(s, init),
            decreases s.len() - self.offset,
        {
            if self.eof() {
                break;
            }
            let ghost before = DeclState {
                pos: self.offset as int,
                declarations: declarations_view(declarations@),
                current: d@,
            };
            proof {
                lemma_decl_step_progress(s, before);
                lemma_skip_spaces_bounds(s, before.pos);
            }
            self.skip_spaces_and_comments();
            let ghost p1 = self.offset as int;
            match self.next() {
                Some(':') => {
                    self.advance(1);
                    proof {
                        use_type_invariant(&*self);
                        lemma_skip_spaces_bounds(s, self.offset as int);
                    }
                    self.skip_spaces_and_comments();
                    let offset = self.offset;
                    proof {
                        use_type_invariant(&*self);
                        lemma_value_end_bounds(s, offset as int, d.important);
                    }
                    let important = self.value_end(d.important);
                    d.important = important;
                    d.value = self.trimmed(offset, self.offset);
                    if d.important {
                        let stops = vec![';', '}'];
                        assert(stops@ == seq![';', '}']);
                        self.advance_while(&CharClass::Except(stops));
                    }
                },
                Some(';') => {
                    self.advance(1);
                    let ghost old_decls = declarations@;
                    declarations.push(d);
                    assert(declarations_view(declarations@) =~= declarations_view(old_decls).push(
                        before.current,
                    ));
                    d = Declaration::default();
                },
                Some('}') => {
                    self.advance(1);
                    break;
                },
                _ => {
                    let offset = self.offset;
                    proof {
                        lemma_scan_bounds(s, offset as int, CharClassView::Ident);
                    }
                    self.skip_ident();
                    if self.offset > offset {
                        d.name = self.trimmed(offset, self.offset);
                    } else {
                        self.advance(1);
                    }
                },
            }
            assert(DeclState {
                pos: self.offset as int,
                declarations: declarations_view(declarations@),
                current: d@,
            } == decl_step(s, before).0);
        }
        if !d.name.as_str().is_empty() {
            let ghost old_decls = declarations@;
            declarations.push(d);
            assert(declarations_view(declarations@) =~= declarations_view(old_decls).push(d@));
        }
        declarations
    }

    /// Reads the name of an attribute selector.
    fn attribute_name(&mut self) -> (name: String)
        ensures
            final(self).text() == old(self).text(),
            (name@, final(self).pos()) == attribute_name_from(old(self).text(), old(self).pos()),
    {
        proof {
            use_type_invariant(&*self);
            lemma_scan_bounds(self.input@, self.offset as int, CharClassView::Ident);
        }
        let offset = self.offset;
        self.skip_ident();
        let mut name = string_of(&self.input, offset, self.offset);
        proof {
            reveal_strlit("|=");
            assert("|="@ =~= seq!['|', '=']);
        }
        if self.next() == Some('|') && !self.starts_with("|=") {
            self.advance(1);
            push_one(&mut name, ':');
            let offset = self.offset;
            proof {
                use_type_invariant(&*self);
                lemma_scan_bounds(self.input@, offset as int, CharClassView::Ident);
            }
            self.skip_ident();
            push_range(&mut name, &self.input, offset, self.offset);
        }
        name
    }

    /// Reads the operand of an attribute selector whose operator is `width` characters long.
    fn attribute_operand(&mut self, width: usize) -> (value: String)
        ensures
            final(self).text() == old(self).text(),
            (value@, final(self).pos()) == attribute_operand(
                old(self).text(),
                old(self).pos(),
                width as int,
            ),
    {
        self.advance(width);
        self.skip_spaces_and_comments();
        let value = self.attribute_value();
        self.skip_spaces_and_comments();
        self.advance(1);
        value
    }

    /// Reads an attribute selector, the parser being on `[`.
    fn attribute(&mut self) -> (attr: Option<Attribute>)
        ensures
            final(self).text() == old(self).text(),
            (match attr {
                Some(a) => Some(a@),
                None => None,
            }, final(self).pos()) == attribute_from(old(self).text(), old(self).pos()),
    {
        self.advance(1);
        self.skip_spaces_and_comments();
        let name = self.attribute_name();
        self.skip_spaces_and_comments();
        match self.next() {
            Some(']') => {
                self.advance(1);
                Some(Attribute { name, operator: AttributeOperator::Exists })
            },
            Some('=') => {
                let value = self.attribute_operand(1);
                Some(Attribute { name, operator: AttributeOperator::Matches(value) })
            },
            Some('~') => {
                let value = self.attribute_operand(2);
                Some(Attribute { name, operator: AttributeOperator::Contains(value) })
            },
            Some('|') => {
                let value = self.attribute_operand(2);
                Some(Attribute { name, operator: AttributeOperator::StartsWith(value) })
            },
            _ => {
                self.advance(2);
                self.skip_spaces_and_comments();
                self.advance(1);
                None
            },
        }
    }

    /// Reads a pseudo-class, the parser being on `:`.
    fn pseudo_class(&mut self) -> (pc: Option<PseudoClass>)
        ensures
            final(self).text() == old(self).text(),
            (pc, final(self).pos()) == pseudo_class_from(old(self).text(), old(self).pos()),
    {
        self.advance(1);
        let mut element = false;
        if self.next() == Some(':') {
            element = true;
            self.advance(1);
        }
        let offset = self.offset;
        proof {
            use_type_invariant(&*self);
            lemma_scan_bounds(self.input@, offset as int, CharClassView::Ident);
        }
        self.skip_ident();
        let pc = if range_eq(&self.input, offset, self.offset, "first-child") {
            Some(PseudoClass::FirstChild)
        } else if range_eq(&self.input, offset, self.offset, "last-child") {
            Some(PseudoClass::LastChild)
        } else {
            None
        };
        if self.next() == Some('(') {
            let stops = vec![')'];
            assert(stops@ == seq![')']);
            self.advance_while(&CharClass::Except(stops));
            self.advance(1);
        }
        if element {
            None
        } else {
            pc
        }
    }

    /// Parses the selectors of a rule, up to the opening brace of its block.
    fn parse_selectors(&mut self) -> (selectors: Vec<Selector>)
        ensures
            final(self).text() == old(self).text(),
            (selectors_view(selectors@), final(self).pos()) == parse_selectors_from(
                old(self).text(),
                old(self).pos(),
            ),
    {
        proof {
            use_type_invariant(&*self);
        }
        let ghost text = self.input@;
        let ghost start = self.offset as int;
        let mut supported = true;
        let mut selectors: Vec<Selector> = Vec::new();
        let mut s = Selector::default();
        let mut selec = SimpleSelector::default();
        let mut comb = Combinator::Empty;
        assert(selectors_view(selectors@) =~= Seq::<SelectorView>::empty());
        loop
            invariant_except_break
                sel_loop(
                    text,
                    SelState {
                        pos: self.offset as int,
                        supported,
                        selectors: selectors_view(selectors@),
                        sel: s@,
                        simple: selec@,
                        comb,
                    },
                ) == sel_loop(text, sel_init(start)),
            invariant
                self.input@ == text,
                start <= self.offset <= text.len(),
            ensures
                (SelState {
                    pos: self.offset as int,
                    supported,
                    selectors: selectors_view(selectors@),
                    sel: s@,
                    simple: selec@,
                    comb,
                }) == sel_loop(text, sel_init(start)),
            decreases text.len() - self.offset,
        {
            if self.eof() {
                break;
            }
            let ghost before = SelState {
                pos: self.offset as int,
                supported,
                selectors: selectors_view(selectors@),
                sel: s@,
                simple: selec@,
                comb,
            };
            proof {
                lemma_sel_step_progress(text, before);
            }
            let mut done = false;
            match self.next() {
                Some('#') => {
                    self.advance(1);
                    let offset = self.offset;
                    proof {
                        use_type_invariant(&*self);
                        lemma_scan_bounds(text, offset as int, CharClassView::Ident);
                    }
                    self.skip_ident();
                    selec.id = Some(string_of(&self.input, offset, self.offset));
                },
                Some('.') => {
                    self.advance(1);
                    let offset = self.offset;
                    proof {
                        use_type_invariant(&*self);
                        lemma_scan_bounds(text, offset as int, CharClassView::Ident);
                    }
                    self.skip_ident();
                    let class = string_of(&self.input, offset, self.offset);
                    insert_class(&mut selec.classes, class);
                },
                Some('[') => {
                    match self.attribute() {
                        Some(attr) => {
                            let ghost old_attrs = selec.attributes@;
                            selec.attributes.push(attr);
                            assert(selec.attributes@.map_values(|a: Attribute| a@) =~= old_attrs.map_values(
                                |a: Attribute| a@,
                            ).push(attr@));
                        },
                        None => {
                            supported = false;
                        },
                    }
                },
                Some(':') => {
                    match self.pseudo_class() {
                        Some(pc) => {
                            selec.pseudo_classes.push(pc);
                        },
                        None => {
                            supported = false;
                        },
                    }
                },
                Some('*') => {
                    self.advance(1);
                },
                _ => {
                    let offset = self.offset;
                    proof {
                        lemma_scan_bounds(text, offset as int, CharClassView::Ident);
                    }
                    self.skip_ident();
                    if self.offset > offset {
                        selec.tag_name = Some(string_of(&self.input, offset, self.offset));
                    } else {
                        done = self.selector_boundary(
                            &mut supported,
                            &mut selectors,
                            &mut s,
                            &mut selec,
                            &mut comb,
                        );
                    }
                },
            }
            assert((SelState {
                pos: self.offset as int,
                supported,
                selectors: selectors_view(selectors@),
                sel: s@,
                simple: selec@,
                comb,
            }, done) == sel_step(text, before));
            if done {
                break;
            }
        }
        if supported {
            let ghost old_sels = selectors@;
            selectors.push(s);
            assert(selectors_view(selectors@) =~= selectors_view(old_sels).push(s@));
        }
        selectors
    }

    /// The end of a compound selector: a combinator, a comma or the opening brace.
    fn selector_boundary(
        &mut self,
        supported: &mut bool,
        selectors: &mut Vec<Selector>,
        s: &mut Selector,
        selec: &mut SimpleSelector,
        comb: &mut Combinator,
    ) -> (done: bool)
        ensures
            final(self).text() == old(self).text(),
            ((SelState {
                pos: final(self).pos(),
                supported: *final(supported),
                selectors: selectors_view(final(selectors)@),
                sel: final(s)@,
                simple: final(selec)@,
                comb: *final(comb),
            }), done) == sel_boundary_step(
                old(self).text(),
                SelState {
                    pos: old(self).pos(),
                    supported: *old(supported),
                    selectors: selectors_view(old(selectors)@),
                    sel: old(s)@,
                    simple: old(selec)@,
                    comb: *old(comb),
                },
            ),
    {
        let offset = self.offset;
        self.skip_spaces_and_comments();
        let mut finished = SimpleSelector::default();
        std::mem::swap(selec, &mut finished);
        let ghost old_simple = s.simple_selectors@;
        s.simple_selectors.push(finished);
        assert(s.simple_selectors@.map_values(|x: SimpleSelector| x@) =~= old_simple.map_values(
            |x: SimpleSelector| x@,
        ).push(finished@));
        s.combinators.push(*comb);
        match self.next() {
            Some(',') => {
                self.advance(1);
                self.skip_spaces_and_comments();
                let mut done_selector = Selector::default();
                std::mem::swap(s, &mut done_selector);
                if *supported {
                    let ghost old_sels = selectors@;
                    selectors.push(done_selector);
                    assert(selectors_view(selectors@) =~= selectors_view(old_sels).push(
                        done_selector@,
                    ));
                }
                *comb = Combinator::Empty;
                *supported = true;
                false
            },
            Some('{') => {
                self.advance(1);
                true
            },
            Some('>') => {
                self.advance(1);
                self.skip_spaces_and_comments();
                *comb = Combinator::Child;
                false
            },
            Some('+') => {
                self.advance(1);
                self.skip_spaces_and_comments();
                *comb = Combinator::NextSibling;
                false
            },
            Some('~') => {
                self.advance(1);
                self.skip_spaces_and_comments();
                *comb = Combinator::SubsequentSibling;
                false
            },
            _ => {
                if self.offset > offset {
                    *comb = Combinator::Descendant;
                } else {
                    self.advance(1);
                }
                false
            },
        }
    }

    /// Reads a rule and adds one rule per supported selector to `rules`.
    fn parse_rules(&mut self, rules: &mut Vec<Rule>)
        ensures
            final(self).text() == old(self).text(),
            ({
                let (selectors, p) = parse_selectors_from(old(self).text(), old(self).pos());
                let (declarations, q) = parse_declarations_from(old(self).text(), p);
                &&& final(self).pos() == q
                &&& rules_view(final(rules)@) == rules_view(old(rules)@) + rules_for(
                    selectors,
                    declarations,
                )
            }),
    {
        let mut selectors = self.parse_selectors();
        let declarations = self.parse_declarations();
        let ghost sels = selectors_view(selectors@);
        let ghost decls = declarations_view(declarations@);
        let ghost start_rules = rules_view(rules@);
        let ghost total = selectors@.len();
        let ghost orig = selectors@;
        while selectors.len() > 0
            invariant
                orig.len() == total,
                selectors@.len() <= total,
                sels == selectors_view(orig),
                decls == declarations_view(declarations@),
                selectors@ == orig.subrange(total - selectors@.len(), total as int),
                rules_view(rules@) == start_rules + rules_for(
                    sels.subrange(0, total - selectors@.len()),
                    decls,
                ),
            decreases selectors@.len(),
        {
            let ghost k = total - selectors@.len();
            let selector = selectors.remove(0);
            let copy = clone_declarations(&declarations);
            let ghost old_rules = rules@;
            rules.push(Rule { selector, declarations: copy });
            assert(selectors@ =~= orig.subrange(total - selectors@.len(), total as int));
            assert(sels.subrange(0, k + 1) =~= sels.subrange(0, k).push(sels[k]));
            assert(rules_view(rules@) =~= rules_view(old_rules).push(rules@.last()@));
            assert(rules_for(sels.subrange(0, k + 1), decls) =~= rules_for(sels.subrange(0, k), decls).push(
                RuleView { selector: sels[k], declarations: decls },
            ));
        }
        assert(sels.subrange(0, total as int) =~= sels);
    }

    /// Parses the whole style sheet.
    pub fn parse(&mut self) -> (sheet: StyleSheet)
        ensures
            final(self).text() == old(self).text(),
            rules_view(sheet.rules@) == parse_sheet(old(self).text(), old(self).pos()),
    {
        proof {
            use_type_invariant(&*self);
        }
        let ghost s = self.input@;
        let ghost start = self.offset as int;
        let mut rules: Vec<Rule> = Vec::new();
        assert(rules_view(rules@) =~= Seq::<RuleView>::empty());
        loop
            invariant_except_break
                sheet_loop(s, self.offset as int, rules_view(rules@)) == parse_sheet(s, start),
            invariant
                self.input@ == s,
                start <= self.offset <= s.len(),
            ensures
                rules_view(rules@) == parse_sheet(s, start),
            decreases s.len() - self.offset,
        {
            if self.eof() {
                break;
            }
            let ghost here = self.offset as int;
            let ghost before = rules_view(rules@);
            proof {
                lemma_sheet_step_progress(s, here, before);
                lemma_skip_spaces_bounds(s, here);
            }
            self.skip_spaces_and_comments();
            match self.next() {
                None => {
                    assert(sheet_step(s, here, before) == (self.offset as int, before, true));
                    assert(sheet_loop(s, here, before) == before);
                    assert(rules_view(rules@) == before);
                    break;
                },
                Some('@') => self.skip_at_rule(),
                _ => self.parse_rules(&mut rules),
            }
            assert((self.offset as int, rules_view(rules@), false) == sheet_step(s, here, before));
        }
        StyleSheet { rules }
    }

    /// The trimmed text between two positions.
    fn trimmed(&self, from: usize, to: usize) -> (s: String)
        requires
            from <= to <= self.text().len(),
        ensures
            s@ == trim(self.text().subrange(from as int, to as int)),
    {
        let ghost v = self.input@.subrange(from as int, to as int);
        let mut start = from;
        while start < to && char_is_whitespace(self.input[start])
            invariant
                from <= start <= to <= self.input@.len(),
                scan(v, (start - from) as int, CharClassView::Whitespace) == scan(
                    v,
                    0,
                    CharClassView::Whitespace,
                ),
                v == self.input@.subrange(from as int, to as int),
            decreases to - start,
        {
            start += 1;
        }
        let mut end = to;
        while end > from && char_is_whitespace(self.input[end - 1])
            invariant
                from <= end <= to <= self.input@.len(),
                trim_end_index(v, (end - from) as int) == trim_end_index(v, v.len() as int),
                v == self.input@.subrange(from as int, to as int),
            decreases end,
        {
            end -= 1;
        }
        if start < end {
            let r = string_of(&self.input, start, end);
            assert(r@ =~= v.subrange((start - from) as int, (end - from) as int));
            r
        } else {
            String::new()
        }
    }
}

/// Adds a class name to a set of class names.
fn insert_class(classes: &mut Vec<String>, class: String)
    ensures
        final(classes)@.map_values(|c: String| c@) == set_insert(
            old(classes)@.map_values(|c: String| c@),
            class@,
        ),
{
    let ghost view = classes@.map_values(|c: String| c@);
    let mut i: usize = 0;
    while i < classes.len()
        invariant
            0 <= i <= classes@.len(),
            view == classes@.map_values(|c: String| c@),
            forall|j: int| 0 <= j < i ==> classes@[j]@ != class@,
        decreases classes@.len() - i,
    {
        if classes[i] == class {
            assert(view[i as int] == class@);
            return;
        }
        i += 1;
    }
    assert(!view.contains(class@)) by {
        if view.contains(class@) {
            let j = choose|j: int| 0 <= j < view.len() && view[j] == class@;
            assert(classes@[j]@ == class@);
        }
    }
    classes.push(class);
    assert(classes@.map_values(|c: String| c@) =~= view.push(class@));
}

/// A copy of a list of declarations.
fn clone_declarations(v: &Vec<Declaration>) -> (r: Vec<Declaration>)
    ensures
        declarations_view(r@) == declarations_view(v@),
{
    let mut r: Vec<Declaration> = Vec::new();
    let mut i: usize = 0;
    while i < v.len()
        invariant
            0 <= i <= v@.len(),
            declarations_view(r@) == declarations_view(v@.subrange(0, i as int)),
        decreases v@.len() - i,
    {
        let d = &v[i];
        let ghost old_r = r@;
        r.push(Declaration { name: d.name.clone(), value: d.value.clone(), important: d.important });
        assert(declarations_view(r@) =~= declarations_view(old_r).push(v@[i as int]@));
        assert(v@.subrange(0, (i + 1) as int) =~= v@.subrange(0, i as int).push(v@[i as int]));
        assert(declarations_view(v@.subrange(0, (i + 1) as int)) =~= declarations_view(
            v@.subrange(0, i as int),
        ).push(v@[i as int]@));
        i += 1;
    }
    assert(v@.subrange(0, v@.len() as int) =~= v@);
    r
}

impl Selector {
    /// The specificity of the selector: ids, then classes, pseudo-classes and attributes,
    /// then tag names.
    pub fn specificity(&self) -> (spec: Specificity)
        ensures
            (spec[0] as int, spec[1] as int, spec[2] as int) == specificity_of(
                self@.simple_selectors,
            ),
    {
        let mut a: usize = 0;
        let mut b: usize = 0;
        let mut c: usize = 0;
        let mut i: usize = 0;
        let ghost sels = self@.simple_selectors;
        while i < self.simple_selectors.len()
            invariant
                0 <= i <= self.simple_selectors@.len(),
                sels == self@.simple_selectors,
                (a as int, b as int, c as int) == specificity_of(sels.subrange(0, i as int)),
            decreases self.simple_selectors@.len() - i,
        {
            let sel = &self.simple_selectors[i];
            let ids: usize = if sel.id.is_some() { 1 } else { 0 };
            let tags: usize = if sel.tag_name.is_some() { 1 } else { 0 };
            a = a.saturating_add(ids);
            b = b.saturating_add(sel.classes.len());
            b = b.saturating_add(sel.pseudo_classes.len());
            b = b.saturating_add(sel.attributes.len());
            c = c.saturating_add(tags);
            assert(sels.subrange(0, (i + 1) as int).drop_last() =~= sels.subrange(0, i as int));
            i += 1;
        }
        assert(sels.subrange(0, sels.len() as int) =~= sels);
        [a, b, c]
    }
}

fn contains_char(v: &Vec<char>, c: char) -> (b: bool)
    ensures
        b == v@.contains(c),
{
    let mut i: usize = 0;
    while i < v.len()
        invariant
            0 <= i <= v@.len(),
            forall|j: int| 0 <= j < i ==> v@[j] != c,
        decreases v@.len() - i,
    {
        if v[i] == c {
            assert(v@[i as int] == c);
            return true;
        }
        i += 1;
    }
    false
}


/// The number of classes, pseudo-classes and attribute selectors of the given compound
/// selectors, all together.
pub open spec fn qualifier_count(sels: Seq<SimpleSelectorView>) -> int
    decreases sels.len(),
{
    if sels.len() == 0 {
        0
    } else {
        qualifier_count(sels.drop_last()) + sels.last().classes.len() + sels.last().pseudo_classes.len()
            + sels.last().attributes.len()
    }
}

/// The number of the compound selectors that name an id, and of those that name a tag.
pub open spec fn id_and_tag_counts(sels: Seq<SimpleSelectorView>) -> (int, int)
    decreases sels.len(),
{
    if sels.len() == 0 {
        (0, 0)
    } else {
        let (i, t) = id_and_tag_counts(sels.drop_last());
        (i + if sels.last().id is Some { 1int } else { 0 }, t + if sels.last().tag_name is Some { 1int } else { 0 })
    }
}

/// A selector's specificity counts, up to the largest machine number: first the compound
/// selectors that name an id, then the classes, pseudo-classes and attribute selectors of
/// all of them, then the compound selectors that name a tag.
pub proof fn lemma_specificity_counts_qualifiers(sels: Seq<SimpleSelectorView>)
    ensures
        specificity_of(sels).1 == if qualifier_count(sels) > usize::MAX {
            usize::MAX as int
        } else {
            qualifier_count(sels)
        },
        specificity_of(sels).0 == if id_and_tag_counts(sels).0 > usize::MAX {
            usize::MAX as int
        } else {
            id_and_tag_counts(sels).0
        },
        specificity_of(sels).2 == if id_and_tag_counts(sels).1 > usize::MAX {
            usize::MAX as int
        } else {
            id_and_tag_counts(sels).1
        },
        0 <= qualifier_count(sels),
        0 <= id_and_tag_counts(sels).0 && 0 <= id_and_tag_counts(sels).1,
    decreases sels.len(),
{
    if sels.len() > 0 {
        lemma_specificity_counts_qualifiers(sels.drop_last());
    }
}

/// Adding an attribute selector to one of the compound selectors of a selector raises the
/// second component of its specificity by one (while it is below the largest machine number)
/// and leaves the other two as they were.
pub proof fn lemma_attribute_raises_specificity(sels: Seq<SimpleSelectorView>, k: int, a: AttributeView)
    requires
        0 <= k < sels.len(),
        qualifier_count(sels) < usize::MAX,
    ensures
        ({
            let t = sels.update(k, SimpleSelectorView { attributes: sels[k].attributes.push(a), ..sels[k] });
            &&& specificity_of(t).1 == specificity_of(sels).1 + 1
            &&& specificity_of(t).0 == specificity_of(sels).0
            &&& specificity_of(t).2 == specificity_of(sels).2
        }),
{
    lemma_update_attribute(sels, k, a);
    let t = sels.update(k, SimpleSelectorView { attributes: sels[k].attributes.push(a), ..sels[k] });
    lemma_specificity_counts_qualifiers(sels);
    lemma_specificity_counts_qualifiers(t);
}

proof fn lemma_update_attribute(sels: Seq<SimpleSelectorView>, k: int, a: AttributeView)
    requires
        0 <= k < sels.len(),
    ensures
        ({
            let t = sels.update(k, SimpleSelectorView { attributes: sels[k].attributes.push(a), ..sels[k] });
            &&& qualifier_count(t) == qualifier_count(sels) + 1
            &&& specificity_of(t).0 == specificity_of(sels).0
            &&& specificity_of(t).2 == specificity_of(sels).2
        }),
    decreases sels.len(),
{
    let t = sels.update(k, SimpleSelectorView { attributes: sels[k].attributes.push(a), ..sels[k] });
    if k < sels.len() - 1 {
        assert(t.drop_last() =~= sels.drop_last().update(k, SimpleSelectorView { attributes: sels[k].attributes.push(a), ..sels[k] }));
        assert(sels.drop_last()[k] == sels[k]);
        lemma_update_attribute(sels.drop_last(), k, a);
        assert(t.last() == sels.last());
    } else {
        assert(t.drop_last() =~= sels.drop_last());
    }
}

} // verus!
