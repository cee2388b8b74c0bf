//! The tree of an HTML document: elements with their attributes and children, and text.
use vstd::prelude::*;
use crate::strmap::StringMap;
use crate::chars::{
    chars_of, string_of, find_char, index_of, lemma_index_of, str_eq, split_on, split_char,
    string_views, opt_chars, opt_str, to_string,
};

verus! {

/// The attributes of an element, by name.
pub type Attributes = StringMap;

#[derive(Debug)]
pub enum Node {
    Element(ElementData),
    Text(TextData),
    Whitespace(TextData),
}

#[derive(Debug)]
pub struct ElementData {
    pub offset: usize,
    pub name: String,
    pub qualified_name: Option<String>,
    pub attributes: Attributes,
    pub children: Vec<Node>,
}

#[derive(Debug, Clone)]
pub struct TextData {
    pub offset: usize,
    pub text: String,
}

/// The local part of an element name: what follows its first colon, if it has one.
pub open spec fn local_name(name: Seq<char>) -> Seq<char> {
    match index_of(name, ':') {
        Some(k) => name.skip(k + 1),
        None => name,
    }
}

/// An element named `name` (`prefix:local` keeps `local` as its name and the whole as its
/// qualified name).
pub fn element(name: &str, offset: usize, attributes: Attributes, children: Vec<Node>) -> (n: Node)
    ensures
        n matches Node::Element(e) && e.offset == offset && e.name@ == local_name(name@)
            && opt_chars(e.qualified_name) == (if index_of(name@, ':') is Some {
            Some(name@)
        } else {
            None
        }) && e.attributes@ == attributes@ && e.children@ == children@,
{
    let v = chars_of(name);
    let n = v.len();
    proof {
        assert(v@.subrange(0, n as int) =~= v@);
        lemma_index_of(v@, ':');
    }
    match find_char(&v, 0, n, ':') {
        Some(k) => {
            proof {
                match index_of(v@, ':') {
                    Some(i) => assert(k == i),
                    None => assert(false),
                }
                assert(v@.subrange(k + 1, n as int) =~= v@.skip(k + 1));
            }
            Node::Element(
                ElementData {
                    offset,
                    name: string_of(&v, k + 1, n),
                    qualified_name: Some(to_string(name)),
                    attributes,
                    children,
                },
            )
        },
        None => Node::Element(
            ElementData {
                offset,
                name: string_of(&v, 0, n),
                qualified_name: None,
                attributes,
                children,
            },
        ),
    }
}

/// A text node.
pub fn text(content: &str, offset: usize) -> (n: Node)
    ensures
        n matches Node::Text(t) && t.offset == offset && t.text@ == content@,
{
    Node::Text(TextData { offset, text: to_string(content) })
}

/// A node of white space.
pub fn whitespace(content: &str, offset: usize) -> (n: Node)
    ensures
        n matches Node::Whitespace(t) && t.offset == offset && t.text@ == content@,
{
    Node::Whitespace(TextData { offset, text: to_string(content) })
}

/// The name of an element.
pub open spec fn tag_name_of(n: Node) -> Option<Seq<char>> {
    match n {
        Node::Element(e) => Some(e.name@),
        _ => None,
    }
}

/// The text of a node: that of a text node, or of the only child of an element.
pub open spec fn text_of(n: Node) -> Option<Seq<char>>
    decreases n,
{
    match n {
        Node::Text(t) => Some(t.text@),
        Node::Whitespace(t) => Some(t.text@),
        Node::Element(e) => if e.children@.len() == 1 {
            text_of(e.children@[0])
        } else {
            None
        },
    }
}

/// The value of an attribute of a node.
pub open spec fn attr_of(n: Node, name: Seq<char>) -> Option<Seq<char>> {
    match n {
        Node::Element(e) => if e.attributes@.dom().contains(name) {
            Some(e.attributes@[name])
        } else {
            None
        },
        _ => None,
    }
}

/// The names of the elements that are laid out as blocks.
pub open spec fn block_names() -> Seq<&'static str> {
    seq![
        "address", "anonymous", "article", "aside", "blockquote", "body", "head", "details",
        "dialog", "dd", "div", "dl", "dt", "fieldset", "figcaption", "figure", "footer", "form",
        "h1", "h2", "h3", "h4", "h5", "h6", "header", "hgroup", "hr", "html", "li", "main", "nav",
        "ol", "p", "pre", "section", "table", "thead", "colgroup", "tbody", "tfoot", "tr",
        "caption", "td", "th", "ul",
    ]
}

/// A block element.
pub open spec fn is_block_node(n: Node) -> bool {
    match n {
        Node::Element(e) => exists|k: int| 0 <= k < block_names().len() && (#[trigger] block_names()[k])@
            == e.name@,
        _ => false,
    }
}

/// The first element named `tag`, in document order, among the trees `s`.
pub open spec fn find_in_nodes(s: Seq<Node>, tag: Seq<char>) -> Option<Node>
    decreases s,
{
    if s.len() == 0 {
        None
    } else {
        let first = match s[0] {
            Node::Element(e) => if e.name@ == tag {
                Some(s[0])
            } else {
                find_in_nodes(e.children@, tag)
            },
            _ => None,
        };
        match first {
            Some(x) => Some(x),
            None => find_in_nodes(s.drop_first(), tag),
        }
    }
}

/// The first element whose `id` attribute is `value`, in document order, among the trees `s`.
pub open spec fn find_id_in_nodes(s: Seq<Node>, value: Seq<char>) -> Option<Node>
    decreases s,
{
    if s.len() == 0 {
        None
    } else {
        let first = match s[0] {
            Node::Element(e) => if e.attributes@.dom().contains("id"@) && e.attributes@["id"@]
                == value {
                Some(s[0])
            } else {
                find_id_in_nodes(e.children@, value)
            },
            _ => None,
        };
        match first {
            Some(x) => Some(x),
            None => find_id_in_nodes(s.drop_first(), value),
        }
    }
}

/// The node a reference points to.
pub open spec fn deref_node(r: Option<&Node>) -> Option<Node> {
    match r {
        Some(n) => Some(*n),
        None => None,
    }
}

/// Searching one tree: its root, then the trees of its children.
proof fn lemma_find_single(n: Node, tag: Seq<char>, value: Seq<char>)
    ensures
        find_in_nodes(seq![n], tag) == match n {
            Node::Element(e) => if e.name@ == tag {
                Some(n)
            } else {
                find_in_nodes(e.children@, tag)
            },
            _ => None,
        },
        find_id_in_nodes(seq![n], value) == match n {
            Node::Element(e) => if e.attributes@.dom().contains("id"@) && e.attributes@["id"@]
                == value {
                Some(n)
            } else {
                find_id_in_nodes(e.children@, value)
            },
            _ => None,
        },
{
    assert(seq![n][0] == n);
    assert(seq![n].drop_first() =~= Seq::<Node>::empty());
    assert(find_in_nodes(Seq::<Node>::empty(), tag) is None);
    assert(find_id_in_nodes(Seq::<Node>::empty(), value) is None);
}

/// Searching the trees `s` in order is searching the first, then the others.
proof fn lemma_find_step(s: Seq<Node>, i: int, tag: Seq<char>)
    requires
        0 <= i < s.len(),
    ensures
        find_in_nodes(s.skip(i), tag) == match find_in_nodes(seq![s[i]], tag) {
            Some(x) => Some(x),
            None => find_in_nodes(s.skip(i + 1), tag),
        },
{
    assert(s.skip(i)[0] == s[i]);
    assert(seq![s[i]][0] == s[i]);
    assert(s.skip(i).drop_first() =~= s.skip(i + 1));
    assert(seq![s[i]].drop_first() =~= Seq::<Node>::empty());
    assert(find_in_nodes(Seq::<Node>::empty(), tag) is None);
}

proof fn lemma_find_id_step(s: Seq<Node>, i: int, value: Seq<char>)
    requires
        0 <= i < s.len(),
    ensures
        find_id_in_nodes(s.skip(i), value) == match find_id_in_nodes(seq![s[i]], value) {
            Some(x) => Some(x),
            None => find_id_in_nodes(s.skip(i + 1), value),
        },
{
    assert(s.skip(i)[0] == s[i]);
    assert(seq![s[i]][0] == s[i]);
    assert(s.skip(i).drop_first() =~= s.skip(i + 1));
    assert(seq![s[i]].drop_first() =~= Seq::<Node>::empty());
    assert(find_id_in_nodes(Seq::<Node>::empty(), value) is None);
}

/// The first element named `tag` among the trees `nodes`.
fn find_among<'a>(nodes: &'a [Node], tag: &str) -> (r: Option<&'a Node>)
    ensures
        deref_node(r) == find_in_nodes(nodes@, tag@),
    decreases nodes@,
{
    let mut i: usize = 0;
    assert(nodes@.skip(0) =~= nodes@);
    while i < nodes.len()
        invariant
            0 <= i <= nodes@.len(),
            find_in_nodes(nodes@, tag@) == find_in_nodes(nodes@.skip(i as int), tag@),
        decreases nodes@.len() - i,
    {
        proof {
            lemma_find_step(nodes@, i as int, tag@);
            lemma_find_single(nodes@[i as int], tag@, tag@);
        }
        let node = &nodes[i];
        match node {
            Node::Element(e) => {
                if str_eq(e.name.as_str(), tag) {
                    return Some(node);
                }
                proof {
                    assert(decreases_to!(nodes@ => e.children@));
                }
                let found = find_among(e.children.as_slice(), tag);
                if found.is_some() {
                    return found;
                }
            },
            _ => {},
        }
        i += 1;
    }
    assert(nodes@.skip(i as int) =~= Seq::<Node>::empty());
    None
}

/// The first element whose `id` attribute is `value` among the trees `nodes`.
fn find_id_among<'a>(nodes: &'a [Node], value: &str) -> (r: Option<&'a Node>)
    ensures
        deref_node(r) == find_id_in_nodes(nodes@, value@),
    decreases nodes@,
{
    let mut i: usize = 0;
    assert(nodes@.skip(0) =~= nodes@);
    while i < nodes.len()
        invariant
            0 <= i <= nodes@.len(),
            find_id_in_nodes(nodes@, value@) == find_id_in_nodes(nodes@.skip(i as int), value@),
        decreases nodes@.len() - i,
    {
        proof {
            lemma_find_id_step(nodes@, i as int, value@);
            lemma_find_single(nodes@[i as int], value@, value@);
        }
        let node = &nodes[i];
        match node {
            Node::Element(e) => {
                let is_it = match e.attributes.get("id") {
                    Some(v) => str_eq(v.as_str(), value),
                    None => false,
                };
                if is_it {
                    return Some(node);
                }
                proof {
                    assert(decreases_to!(nodes@ => e.children@));
                }
                let found = find_id_among(e.children.as_slice(), value);
                if found.is_some() {
                    return found;
                }
            },
            _ => {},
        }
        i += 1;
    }
    assert(nodes@.skip(i as int) =~= Seq::<Node>::empty());
    None
}

/// Whether `name` is the name of a block element.
fn is_block_name(name: &str) -> (b: bool)
    ensures
        b == exists|k: int| 0 <= k < block_names().len() && (#[trigger] block_names()[k])@ == name@,
{
    let names: Vec<&str> = vec![
        "address", "anonymous", "article", "aside", "blockquote", "body", "head", "details",
        "dialog", "dd", "div", "dl", "dt", "fieldset", "figcaption", "figure", "footer", "form",
        "h1", "h2", "h3", "h4", "h5", "h6", "header", "hgroup", "hr", "html", "li", "main", "nav",
        "ol", "p", "pre", "section", "table", "thead", "colgroup", "tbody", "tfoot", "tr",
        "caption", "td", "th", "ul",
    ];
    assert(names@ =~= block_names());
    let mut k: usize = 0;
    while k < names.len()
        invariant
            0 <= k <= names@.len(),
            names@ == block_names(),
            forall|j: int| 0 <= j < k ==> (#[trigger] block_names()[j])@ != name@,
        decreases names@.len() - k,
    {
        if str_eq(names[k], name) {
            return true;
        }
        k += 1;
    }
    false
}

impl Node {
    /// The name of an element.
    pub fn tag_name(&self) -> (r: Option<&str>)
        ensures
            opt_str(r) == tag_name_of(*self),
    {
        match self {
            Node::Element(e) => Some(e.name.as_str()),
            _ => None,
        }
    }

    /// The qualified name of an element, when it has a prefix.
    pub fn tag_qualified_name(&self) -> (r: Option<&str>)
        ensures
            opt_str(r) == match *self {
                Node::Element(e) => opt_chars(e.qualified_name),
                _ => None,
            },
    {
        match self {
            Node::Element(e) => match &e.qualified_name {
                Some(q) => Some(q.as_str()),
                None => None,
            },
            _ => None,
        }
    }

    /// The children of an element.
    pub fn children(&self) -> (r: Option<&Vec<Node>>)
        ensures
            match *self {
                Node::Element(e) => r matches Some(c) && c@ == e.children@,
                _ => r is None,
            },
    {
        match self {
            Node::Element(e) => Some(&e.children),
            _ => None,
        }
    }

    /// A child of an element.
    pub fn child(&self, index: usize) -> (r: Option<&Node>)
        ensures
            deref_node(r) == match *self {
                Node::Element(e) => if index < e.children@.len() {
                    Some(e.children@[index as int])
                } else {
                    None
                },
                _ => None,
            },
    {
        match self {
            Node::Element(e) => if index < e.children.len() {
                Some(&e.children[index])
            } else {
                None
            },
            _ => None,
        }
    }

    /// The attributes of an element.
    pub fn attributes(&self) -> (r: Option<&Attributes>)
        ensures
            match *self {
                Node::Element(e) => r matches Some(a) && a@ == e.attributes@,
                _ => r is None,
            },
    {
        match self {
            Node::Element(e) => Some(&e.attributes),
            _ => None,
        }
    }

    /// The text of a node: that of a text node, or of the only child of an element.
    pub fn text(&self) -> (r: Option<&str>)
        ensures
            opt_str(r) == text_of(*self),
        decreases self,
    {
        match self {
            Node::Text(t) => Some(t.text.as_str()),
            Node::Whitespace(t) => Some(t.text.as_str()),
            Node::Element(e) => {
                if e.children.len() == 1 {
                    proof {
                        assert(decreases_to!(self => e.children@[0]));
                    }
                    e.children[0].text()
                } else {
                    None
                }
            },
        }
    }

    /// Whether the node is an element laid out as a block.
    pub fn is_block(&self) -> (b: bool)
        ensures
            b == is_block_node(*self),
    {
        match self {
            Node::Element(e) => is_block_name(e.name.as_str()),
            _ => false,
        }
    }

    /// Whether the node is white space.
    pub fn is_whitespace(&self) -> (b: bool)
        ensures
            b == (*self is Whitespace),
    {
        match self {
            Node::Whitespace(..) => true,
            _ => false,
        }
    }

    /// Whether the node is an element.
    pub fn is_element(&self) -> (b: bool)
        ensures
            b == (*self is Element),
    {
        match self {
            Node::Element(..) => true,
            _ => false,
        }
    }

    /// The value of an attribute.
    pub fn attr(&self, name: &str) -> (r: Option<&str>)
        ensures
            opt_str(r) == attr_of(*self, name@),
    {
        match self {
            Node::Element(e) => match e.attributes.get(name) {
                Some(v) => Some(v.as_str()),
                None => None,
            },
            _ => None,
        }
    }

    /// The class names of the element: the pieces of its `class` attribute between spaces.
    pub fn classes(&self) -> (r: Option<Vec<String>>)
        ensures
            match attr_of(*self, "class"@) {
                Some(t) => r matches Some(c) && string_views(c@) == split_char(t, ' '),
                None => r is None,
            },
    {
        match self.attr("class") {
            Some(t) => Some(split_on(t, ' ')),
            None => None,
        }
    }

    /// The `id` attribute.
    pub fn id(&self) -> (r: Option<&str>)
        ensures
            opt_str(r) == attr_of(*self, "id"@),
    {
        self.attr("id")
    }

    /// Where the node starts in the document's text.
    pub fn offset(&self) -> (o: usize)
        ensures
            o == match *self {
                Node::Text(t) => t.offset,
                Node::Whitespace(t) => t.offset,
                Node::Element(e) => e.offset,
            },
    {
        match self {
            Node::Text(t) => t.offset,
            Node::Whitespace(t) => t.offset,
            Node::Element(e) => e.offset,
        }
    }

    /// The first element named `tag_name` in the tree, in document order.
    pub fn find(&self, tag_name: &str) -> (r: Option<&Node>)
        ensures
            deref_node(r) == find_in_nodes(seq![*self], tag_name@),
    {
        assert(seq![*self].drop_first() =~= Seq::<Node>::empty());
        assert(seq![*self][0] == *self);
        assert(find_in_nodes(Seq::<Node>::empty(), tag_name@) is None);
        match self {
            Node::Element(e) => {
                if str_eq(e.name.as_str(), tag_name) {
                    Some(self)
                } else {
                    find_among(e.children.as_slice(), tag_name)
                }
            },
            _ => None,
        }
    }

    /// The first element of the tree whose `id` attribute is `value`, in document order.
    pub fn find_by_id(&self, value: &str) -> (r: Option<&Node>)
        ensures
            deref_node(r) == find_id_in_nodes(seq![*self], value@),
    {
        assert(seq![*self].drop_first() =~= Seq::<Node>::empty());
        assert(seq![*self][0] == *self);
        assert(find_in_nodes(Seq::<Node>::empty(), value@) is None);
        assert(find_id_in_nodes(Seq::<Node>::empty(), value@) is None);
        match self {
            Node::Element(e) => {
                let is_it = match e.attributes.get("id") {
                    Some(v) => str_eq(v.as_str(), value),
                    None => false,
                };
                if is_it {
                    Some(self)
                } else {
                    find_id_among(e.children.as_slice(), value)
                }
            },
            _ => None,
        }
    }
}

/// Some node of `s` is a block.
pub open spec fn has_block(s: Seq<Node>) -> bool {
    exists|k: int| 0 <= k < s.len() && is_block_node(#[trigger] s[k])
}

/// `a` is an anonymous element that holds the nodes `group`, placed where the first of them was.
pub open spec fn anonymous_of(a: Node, group: Seq<Node>) -> bool {
    &&& group.len() > 0
    &&& a matches Node::Element(e)
    &&& e.name@ == "anonymous"@
    &&& e.qualified_name is None
    &&& e.attributes@ == Map::<Seq<char>, Seq<char>>::empty()
    &&& e.offset == offset_of(group[0])
    &&& e.children@ == group
}

/// Where a node starts in the document's text.
pub open spec fn offset_of(n: Node) -> usize {
    match n {
        Node::Text(t) => t.offset,
        Node::Whitespace(t) => t.offset,
        Node::Element(e) => e.offset,
    }
}

/// `new` is `old` with its lost inlines wrapped: an element with block children has each run
/// of its other children wrapped in an anonymous element (a run starts at a node that is not
/// white space and goes on up to the next block), and its block children wrapped in turn.
/// Nothing else changes.
pub open spec fn wraps(old: Node, new: Node) -> bool
    decreases old, 0int,
{
    match (old, new) {
        (Node::Element(e1), Node::Element(e2)) => {
            &&& e2.offset == e1.offset
            &&& e2.name@ == e1.name@
            &&& opt_chars(e2.qualified_name) == opt_chars(e1.qualified_name)
            &&& e2.attributes@ == e1.attributes@
            &&& if has_block(e1.children@) {
                wraps_from(e1.children@, 0, Seq::empty(), e2.children@)
            } else {
                e2.children@ == e1.children@
            }
        },
        (Node::Element(_), _) => false,
        _ => new == old,
    }
}

/// `d` is what the children `c` become from position `i` on, `group` being the run of inline
/// children met just before `i` and not wrapped yet.
pub open spec fn wraps_from(c: Seq<Node>, i: int, group: Seq<Node>, d: Seq<Node>) -> bool
    decreases c, c.len() - i,
{
    if i < 0 || i >= c.len() {
        if group.len() > 0 {
            d.len() == 1 && anonymous_of(d[0], group)
        } else {
            d.len() == 0
        }
    } else {
        let x = c[i];
        if is_block_node(x) {
            if group.len() > 0 {
                &&& d.len() >= 2
                &&& anonymous_of(d[0], group)
                &&& wraps(x, d[1])
                &&& wraps_from(c, i + 1, Seq::empty(), d.skip(2))
            } else {
                &&& d.len() >= 1
                &&& wraps(x, d[0])
                &&& wraps_from(c, i + 1, Seq::empty(), d.skip(1))
            }
        } else if group.len() == 0 && !(x is Whitespace) {
            wraps_from(c, i + 1, seq![x], d)
        } else if group.len() > 0 {
            wraps_from(c, i + 1, group.push(x), d)
        } else {
            &&& d.len() >= 1
            &&& d[0] == x
            &&& wraps_from(c, i + 1, Seq::empty(), d.skip(1))
        }
    }
}

/// Whether some node of `nodes` is a block.
fn any_block(nodes: &Vec<Node>) -> (b: bool)
    ensures
        b == has_block(nodes@),
{
    let mut k: usize = 0;
    while k < nodes.len()
        invariant
            0 <= k <= nodes@.len(),
            forall|j: int| 0 <= j < k ==> !is_block_node(#[trigger] nodes@[j]),
        decreases nodes@.len() - k,
    {
        if nodes[k].is_block() {
            return true;
        }
        k += 1;
    }
    false
}

/// An anonymous element that holds `group`.
fn anonymous(group: Vec<Node>) -> (a: Node)
    requires
        group@.len() > 0,
    ensures
        anonymous_of(a, group@),
{
    let offset = group[0].offset();
    Node::Element(
        ElementData {
            offset,
            name: "anonymous".to_owned(),
            qualified_name: None,
            attributes: StringMap::new(),
            children: group,
        },
    )
}

/// The children `c` with their lost inlines wrapped.
fn wrap_children(c: Vec<Node>) -> (d: Vec<Node>)
    ensures
        wraps_from(c@, 0, Seq::empty(), d@),
    decreases c@, 1int,
{
    let ghost orig = c@;
    let mut rest = c;
    let mut out: Vec<Node> = Vec::new();
    let mut group: Vec<Node> = Vec::new();
    let n = rest.len();
    let mut i: usize = 0;
    assert(orig.skip(0) =~= orig);
    assert forall|d: Seq<Node>| wraps_from(orig, 0, group@, d) implies wraps_from(
        orig,
        0,
        Seq::empty(),
        out@ + d,
    ) by {
        assert(group@ =~= Seq::<Node>::empty());
        assert(out@ + d =~= d);
    }
    while i < n
        invariant
            0 <= i <= n,
            n == orig.len(),
            orig == c@,
            rest@ == orig.skip(i as int),
            forall|d: Seq<Node>| #[trigger]
                wraps_from(orig, i as int, group@, d) ==> wraps_from(
                    orig,
                    0,
                    Seq::empty(),
                    out@ + d,
                ),
        decreases n - i,
    {
        let mut x = rest.remove(0);
        assert(x == orig[i as int]);
        assert(rest@ =~= orig.skip(i + 1));
        let is_block = x.is_block();
        let is_ws = x.is_whitespace();
        let ghost old_out = out@;
        let ghost old_group = group@;
        let ghost ox = x;
        if !is_block {
            if group.len() == 0 && !is_ws {
                group.push(x);
                assert(group@ =~= seq![ox]);
                assert(old_group =~= Seq::<Node>::empty());
                assert forall|d: Seq<Node>| #[trigger]
                    wraps_from(orig, i + 1, group@, d) implies wraps_from(
                        orig,
                        0,
                        Seq::empty(),
                        out@ + d,
                    ) by {
                    assert(wraps_from(orig, i as int, old_group, d));
                }
            } else if group.len() > 0 {
                group.push(x);
                assert forall|d: Seq<Node>| #[trigger]
                    wraps_from(orig, i + 1, group@, d) implies wraps_from(
                        orig,
                        0,
                        Seq::empty(),
                        out@ + d,
                    ) by {
                    assert(group@ == old_group.push(ox));
                    assert(wraps_from(orig, i as int, old_group, d));
                }
            } else {
                out.push(x);
                assert(old_group =~= Seq::<Node>::empty());
                assert forall|d: Seq<Node>| #[trigger]
                    wraps_from(orig, i + 1, group@, d) implies wraps_from(
                        orig,
                        0,
                        Seq::empty(),
                        out@ + d,
                    ) by {
                    assert((seq![ox] + d).skip(1) =~= d);
                    assert(wraps_from(orig, i as int, old_group, seq![ox] + d));
                    assert(out@ + d =~= old_out + (seq![ox] + d));
                }
            }
        } else {
            proof {
                assert(decreases_to!(orig => orig[i as int]));
                assert(decreases_to!(orig, 1int => ox, 0int));
            }
            x.wrap_lost_inlines();
            let ghost b = x;
            if group.len() > 0 {
                let mut g = Vec::new();
                std::mem::swap(&mut g, &mut group);
                let a = anonymous(g);
                let ghost av = a;
                out.push(a);
                out.push(x);
                assert forall|d: Seq<Node>| #[trigger]
                    wraps_from(orig, i + 1, group@, d) implies wraps_from(
                        orig,
                        0,
                        Seq::empty(),
                        out@ + d,
                    ) by {
                    assert(group@ =~= Seq::<Node>::empty());
                    assert((seq![av, b] + d).skip(2) =~= d);
                    assert(wraps_from(orig, i as int, old_group, seq![av, b] + d));
                    assert(out@ + d =~= old_out + (seq![av, b] + d));
                }
            } else {
                out.push(x);
                assert(old_group =~= Seq::<Node>::empty());
                assert forall|d: Seq<Node>| #[trigger]
                    wraps_from(orig, i + 1, group@, d) implies wraps_from(
                        orig,
                        0,
                        Seq::empty(),
                        out@ + d,
                    ) by {
                    assert((seq![b] + d).skip(1) =~= d);
                    assert(wraps_from(orig, i as int, old_group, seq![b] + d));
                    assert(out@ + d =~= old_out + (seq![b] + d));
                }
            }
        }
        i += 1;
    }
    if group.len() > 0 {
        let ghost old_out = out@;
        let ghost g0 = group@;
        let a = anonymous(group);
        out.push(a);
        assert(wraps_from(orig, n as int, g0, seq![a]));
        assert(out@ =~= old_out + seq![a]);
    } else {
        assert(wraps_from(orig, n as int, group@, Seq::<Node>::empty()));
        assert(out@ + Seq::<Node>::empty() =~= out@);
    }
    out
}

impl Node {
    /// Wraps the lost inlines of the tree: in an element with block children, each run of
    /// other children, from one that is not white space up to the next block, goes into an
    /// anonymous element; block children get the same treatment.
    pub fn wrap_lost_inlines(&mut self)
        ensures
            wraps(*old(self), *final(self)),
        decreases *old(self), 0int,
    {
        match self {
            Node::Element(e) => {
                if any_block(&e.children) {
                    let mut children = Vec::new();
                    std::mem::swap(&mut children, &mut e.children);
                    proof {
                        assert(decreases_to!(*old(self) => children@));
                    }
                    e.children = wrap_children(children);
                }
            },
            _ => {},
        }
    }
}

} // verus!
