//! An EPUB book as its package describes it: the metadata of its package document and its
//! spine, the chapters in reading order with their sizes, which give the book's offsets.
use vstd::prelude::*;
use crate::chars::{chars_of, push_one, push_str, to_string, split_char, split_on, starts_at, starts_with_at, str_eq, string_of, string_views};
use crate::dictionary::{trim_end, trim_start};
use crate::metadata::{trimmed, trims};
use crate::sorting::{chars_in_order, lemma_chars_total, lemma_lex_antisymmetric, lemma_lex_transitive, lex_order, order_of_texts, text_order};
use crate::dom::{attr_of, deref_node, find_id_in_nodes, find_in_nodes, tag_name_of, text_of, Node};
use crate::symbolic_path::{last_index_of, lemma_last_index_of};
use crate::helpers::{decode_entities, decode_from, normalized_path, rooted, Normalize};
use crate::document::{Location, TocEntry};

verus! {

/// A chapter of the spine: its path in the archive and its size in bytes.
#[derive(Debug)]
pub struct Chunk {
    pub path: String,
    pub size: usize,
}

/// Where chapter `n` of the spine starts: the sizes of the chapters before it, summed.
pub open spec fn spine_offset(spine: Seq<Chunk>, n: int) -> int
    decreases n,
{
    if n <= 0 || spine.len() == 0 {
        0
    } else if n > spine.len() {
        spine_offset(spine, spine.len() as int)
    } else {
        spine_offset(spine, n - 1) + spine[n - 1].size
    }
}

/// Where chapter `n` of the spine ends.
pub open spec fn chapter_end(spine: Seq<Chunk>, n: int) -> usize {
    spine_offset(spine, n + 1) as usize
}

/// Offsets grow along the spine.
pub proof fn lemma_spine_offset_grows(spine: Seq<Chunk>, i: int, j: int)
    requires
        0 <= i <= j <= spine.len(),
    ensures
        0 <= spine_offset(spine, i) <= spine_offset(spine, j),
    decreases j,
{
    if j > 0 {
        lemma_spine_offset_grows(spine, if i < j { i } else { j - 1 }, j - 1);
    }
}

/// An EPUB book: the root of its package document, the directory of that document in the
/// archive, and its spine.
pub struct EpubDocument {
    info: Node,
    parent: String,
    spine: Vec<Chunk>,
}

impl EpubDocument {
    /// A book has a spine, and its whole size fits `usize`.
    #[verifier::type_invariant]
    spec fn spine_fits(self) -> bool {
        &&& self.spine@.len() > 0
        &&& spine_offset(self.spine@, self.spine@.len() as int) <= usize::MAX
    }

    /// The chapters of the book in reading order.
    pub closed spec fn chapters(self) -> Seq<Chunk> {
        self.spine@
    }

    /// The root of the package document.
    pub closed spec fn package(self) -> Node {
        self.info
    }

    /// The directory of the package document.
    pub closed spec fn package_dir(self) -> Seq<char> {
        self.parent@
    }

    /// The book of a package document, kept in `parent`, and of its spine; none when the
    /// spine is empty.
    pub fn from_parts(info: Node, parent: String, spine: Vec<Chunk>) -> (r: Option<EpubDocument>)
        requires
            spine_offset(spine@, spine@.len() as int) <= usize::MAX,
        ensures
            match r {
                Some(doc) => spine@.len() > 0 && doc.chapters() == spine@ && doc.package() == info
                    && doc.package_dir() == parent@,
                None => spine@.len() == 0,
            },
    {
        if spine.len() == 0 {
            None
        } else {
            Some(EpubDocument { info, parent, spine })
        }
    }

    /// Where chapter `index` starts.
    pub fn offset(&self, index: usize) -> (o: usize)
        requires
            index <= self.chapters().len(),
        ensures
            o == spine_offset(self.chapters(), index as int),
    {
        proof {
            use_type_invariant(self);
        }
        let mut o: usize = 0;
        let mut k: usize = 0;
        while k < index
            invariant
                k <= index <= self.spine@.len(),
                o == spine_offset(self.spine@, k as int),
                spine_offset(self.spine@, self.spine@.len() as int) <= usize::MAX,
            decreases index - k,
        {
            proof {
                lemma_spine_offset_grows(self.spine@, k + 1, self.spine@.len() as int);
            }
            o = o + self.spine[k].size;
            k = k + 1;
        }
        o
    }

    /// The size of the book: where its end lies.
    pub fn size(&self) -> (n: usize)
        ensures
            n == spine_offset(self.chapters(), self.chapters().len() as int),
    {
        self.offset(self.spine.len())
    }

    /// The number of pages of the book: one per byte of its chapters.
    pub fn pages_count(&self) -> (n: usize)
        ensures
            n == spine_offset(self.chapters(), self.chapters().len() as int),
    {
        self.size()
    }

    /// The first chapter for which `test`, given its index and where it ends, holds, with
    /// where it starts.
    pub fn vertebra_coordinates_with<F: Fn(usize, usize) -> bool>(&self, test: F) -> (r: Option<(usize, usize)>)
        requires
            forall|i: usize, e: usize| i < self.chapters().len() ==> call_requires(test, (i, e)),
        ensures
            match r {
                Some((i, s)) => {
                    &&& i < self.chapters().len()
                    &&& s == spine_offset(self.chapters(), i as int)
                    &&& call_ensures(test, (i, chapter_end(self.chapters(), i as int)), true)
                    &&& forall|j: usize| j < i ==> #[trigger] call_ensures(test, (j, chapter_end(self.chapters(), j as int)), false)
                },
                None => forall|j: usize|
                    j < self.chapters().len() ==> #[trigger] call_ensures(test, (j, chapter_end(self.chapters(), j as int)), false),
            },
    {
        proof {
            use_type_invariant(self);
        }
        let mut start_offset: usize = 0;
        let mut end_offset: usize = start_offset;
        let mut index: usize = 0;
        while index < self.spine.len()
            invariant
                index <= self.spine@.len(),
                start_offset == spine_offset(self.spine@, index as int),
                end_offset == start_offset,
                spine_offset(self.spine@, self.spine@.len() as int) <= usize::MAX,
                forall|i: usize, e: usize| i < self.spine@.len() ==> call_requires(test, (i, e)),
                forall|j: usize| j < index ==> #[trigger] call_ensures(test, (j, chapter_end(self.spine@, j as int)), false),
            decreases self.spine@.len() - index,
        {
            proof {
                lemma_spine_offset_grows(self.spine@, index + 1, self.spine@.len() as int);
            }
            end_offset = end_offset + self.spine[index].size;
            if test(index, end_offset) {
                return Some((index, start_offset));
            }
            start_offset = end_offset;
            index = index + 1;
        }
        None
    }

    /// The chapter where `offset` lies, with where it starts; none past the end of the book.
    pub fn vertebra_coordinates(&self, offset: usize) -> (r: Option<(usize, usize)>)
        ensures
            match r {
                Some((i, s)) => {
                    &&& i < self.chapters().len()
                    &&& s == spine_offset(self.chapters(), i as int)
                    &&& s <= offset < spine_offset(self.chapters(), i + 1)
                },
                None => offset >= spine_offset(self.chapters(), self.chapters().len() as int),
            },
    {
        proof {
            use_type_invariant(self);
        }
        let ends_after = |_index: usize, end_offset: usize| -> (b: bool)
            ensures
                b == (offset < end_offset),
        {
            offset < end_offset
        };
        let r = self.vertebra_coordinates_with(ends_after);
        let count = self.spine.len();
        proof {
            let sp = self.spine@;
            let n = sp.len() as int;
            lemma_spine_offset_grows(sp, 0, n);
            match r {
                Some((i, s)) => {
                    lemma_spine_offset_grows(sp, i + 1, n);
                    assert(chapter_end(sp, i as int) == spine_offset(sp, i + 1));
                    assert(call_ensures(ends_after, (i, chapter_end(sp, i as int)), true));
                    assert(offset < spine_offset(sp, i + 1));
                    if i > 0 {
                        let j = (i - 1) as usize;
                        assert(j < i);
                        lemma_spine_offset_grows(sp, j + 1, n);
                        assert(chapter_end(sp, j as int) == spine_offset(sp, i as int));
                        assert(call_ensures(ends_after, (j, chapter_end(sp, j as int)), false));
                    }
                },
                None => {
                    assert(count == n && n > 0);
                    let j = (count - 1) as usize;
                    assert(j < self.chapters().len());
                    assert(chapter_end(sp, j as int) == spine_offset(sp, n));
                    assert(call_ensures(ends_after, (j, chapter_end(sp, j as int)), false));
                },
            }
        }
        r
    }

    /// The chapter whose path is `name`, with where it starts.
    pub fn vertebra_coordinates_from_name(&self, name: &str) -> (r: Option<(usize, usize)>)
        ensures
            match r {
                Some((i, s)) => {
                    &&& i < self.chapters().len()
                    &&& s == spine_offset(self.chapters(), i as int)
                    &&& self.chapters()[i as int].path@ == name@
                    &&& forall|j: int| 0 <= j < i ==> self.chapters()[j].path@ != name@
                },
                None => forall|j: int| 0 <= j < self.chapters().len() ==> self.chapters()[j].path@ != name@,
            },
    {
        proof {
            use_type_invariant(self);
        }
        let named = |index: usize, _end_offset: usize| -> (b: bool)
            requires
                index < self.spine@.len(),
            ensures
                b == (self.spine@[index as int].path@ == name@),
        {
            str_eq(self.spine[index].path.as_str(), name)
        };
        let r = self.vertebra_coordinates_with(named);
        let count = self.spine.len();
        proof {
            let sp = self.spine@;
            match r {
                Some((i, s)) => {
                    assert forall|j: int| 0 <= j < i implies sp[j].path@ != name@ by {
                        let ju = j as usize;
                        assert(ju < i);
                        assert(call_ensures(named, (ju, chapter_end(sp, ju as int)), false));
                    }
                    assert(call_ensures(named, (i, chapter_end(sp, i as int)), true));
                },
                None => {
                    assert(sp.len() == count);
                    assert forall|j: int| 0 <= j < sp.len() implies sp[j].path@ != name@ by {
                        let ju = j as usize;
                        assert(ju as int == j);
                        assert(ju < self.chapters().len());
                        assert(call_ensures(named, (ju, chapter_end(sp, ju as int)), false));
                    }
                },
            }
        }
        r
    }
}

/// The first of the nodes `s` of which `p` holds.
pub open spec fn first_such(s: Seq<Node>, p: spec_fn(Node) -> bool) -> Option<Node>
    decreases s.len(),
{
    if s.len() == 0 {
        None
    } else if p(s[0]) {
        Some(s[0])
    } else {
        first_such(s.drop_first(), p)
    }
}

/// An element named `key`.
pub open spec fn tagged(key: Seq<char>) -> spec_fn(Node) -> bool {
    |n: Node| tag_name_of(n) == Some(key)
}

/// A `meta` element whose `name` attribute is `name`.
pub open spec fn meta_named(name: Seq<char>) -> spec_fn(Node) -> bool {
    |n: Node| tag_name_of(n) == Some("meta"@) && attr_of(n, "name"@) == Some(name)
}

/// The children of the `metadata` element of a package document, if it has one.
pub open spec fn metadata_children(info: Node) -> Option<Seq<Node>> {
    match find_in_nodes(seq![info], "metadata"@) {
        Some(Node::Element(m)) => Some(m.children@),
        _ => None,
    }
}

/// The text of the first child of a node, with its entities decoded.
pub open spec fn first_child_text(n: Node) -> Option<Seq<char>> {
    match n {
        Node::Element(e) => if e.children@.len() > 0 {
            match text_of(e.children@[0]) {
                Some(t) => Some(decode_from(t)),
                None => None,
            }
        } else {
            None
        },
        _ => None,
    }
}

/// The metadata `key` of a package document: the text of the first child of its first
/// metadata element named `key`, entities decoded.
pub open spec fn package_metadata(info: Node, key: Seq<char>) -> Option<Seq<char>> {
    match metadata_children(info) {
        Some(c) => match first_such(c, tagged(key)) {
            Some(n) => first_child_text(n),
            None => None,
        },
        None => None,
    }
}

/// The metadata `name` of a package document: the `content` attribute of its first `meta`
/// element named `name`, entities decoded.
pub open spec fn package_meta(info: Node, name: Seq<char>) -> Option<Seq<char>> {
    match metadata_children(info) {
        Some(c) => match first_such(c, meta_named(name)) {
            Some(n) => match attr_of(n, "content"@) {
                Some(v) => Some(decode_from(v)),
                None => None,
            },
            None => None,
        },
        None => None,
    }
}

/// A text's optional view.
pub open spec fn opt_view(o: Option<String>) -> Option<Seq<char>> {
    match o {
        Some(s) => Some(s@),
        None => None,
    }
}

proof fn lemma_first_such_step(s: Seq<Node>, i: int, p: spec_fn(Node) -> bool)
    requires
        0 <= i < s.len(),
    ensures
        first_such(s.skip(i), p) == if p(s[i]) {
            Some(s[i])
        } else {
            first_such(s.skip(i + 1), p)
        },
{
    assert(s.skip(i).drop_first() =~= s.skip(i + 1));
    assert(s.skip(i)[0] == s[i]);
}

/// The first child named `key`.
fn child_tagged<'a>(children: &'a Vec<Node>, key: &str) -> (r: Option<&'a Node>)
    ensures
        deref_node(r) == first_such(children@, tagged(key@)),
{
    let mut i: usize = 0;
    assert(children@.skip(0) =~= children@);
    while i < children.len()
        invariant
            i <= children@.len(),
            first_such(children@, tagged(key@)) == first_such(children@.skip(i as int), tagged(key@)),
        decreases children@.len() - i,
    {
        proof {
            lemma_first_such_step(children@, i as int, tagged(key@));
        }
        let hit = match children[i].tag_name() {
            Some(t) => str_eq(t, key),
            None => false,
        };
        if hit {
            return Some(&children[i]);
        }
        i += 1;
    }
    assert(children@.skip(i as int) =~= Seq::<Node>::empty());
    None
}

/// The first `meta` child named `name`.
fn child_meta_named<'a>(children: &'a Vec<Node>, name: &str) -> (r: Option<&'a Node>)
    ensures
        deref_node(r) == first_such(children@, meta_named(name@)),
{
    let mut i: usize = 0;
    assert(children@.skip(0) =~= children@);
    while i < children.len()
        invariant
            i <= children@.len(),
            first_such(children@, meta_named(name@)) == first_such(children@.skip(i as int), meta_named(name@)),
        decreases children@.len() - i,
    {
        proof {
            lemma_first_such_step(children@, i as int, meta_named(name@));
            reveal_strlit("meta");
        }
        let is_meta = match children[i].tag_name() {
            Some(t) => str_eq(t, "meta"),
            None => false,
        };
        let hit = is_meta && match children[i].attr("name") {
            Some(v) => str_eq(v, name),
            None => false,
        };
        if hit {
            return Some(&children[i]);
        }
        i += 1;
    }
    assert(children@.skip(i as int) =~= Seq::<Node>::empty());
    None
}

impl EpubDocument {
    /// The children of the `metadata` element of the package document.
    fn metadata_nodes(&self) -> (r: Option<&Vec<Node>>)
        ensures
            match r {
                Some(c) => metadata_children(self.package()) == Some(c@),
                None => metadata_children(self.package()) is None,
            },
    {
        match self.info.find("metadata") {
            Some(m) => m.children(),
            None => None,
        }
    }

    /// The metadata `key`: the text of the first metadata element named `key`.
    pub fn metadata(&self, key: &str) -> (r: Option<String>)
        ensures
            opt_view(r) == package_metadata(self.package(), key@),
    {
        let child = match self.metadata_nodes() {
            Some(children) => child_tagged(children, key),
            None => None,
        };
        match child {
            Some(c) => match c.child(0) {
                Some(first) => match first.text() {
                    Some(t) => Some(decode_entities(t)),
                    None => None,
                },
                None => None,
            },
            None => None,
        }
    }

    /// The metadata `name`: the content of the first `meta` element named `name`.
    pub fn metadata_by_name(&self, name: &str) -> (r: Option<String>)
        ensures
            opt_view(r) == package_meta(self.package(), name@),
    {
        let child = match self.metadata_nodes() {
            Some(children) => child_meta_named(children, name),
            None => None,
        };
        match child {
            Some(c) => match c.attr("content") {
                Some(v) => Some(decode_entities(v)),
                None => None,
            },
            None => None,
        }
    }

    /// The title.
    pub fn title(&self) -> (r: Option<String>)
        ensures
            opt_view(r) == package_metadata(self.package(), "dc:title"@),
    {
        self.metadata("dc:title")
    }

    /// The author.
    pub fn author(&self) -> (r: Option<String>)
        ensures
            opt_view(r) == package_metadata(self.package(), "dc:creator"@),
    {
        self.metadata("dc:creator")
    }

    /// The series, as Calibre records it.
    pub fn series(&self) -> (r: Option<String>)
        ensures
            opt_view(r) == package_meta(self.package(), "calibre:series"@),
    {
        self.metadata_by_name("calibre:series")
    }

    /// The place in its series, as Calibre records it.
    pub fn series_index(&self) -> (r: Option<String>)
        ensures
            opt_view(r) == package_meta(self.package(), "calibre:series_index"@),
    {
        self.metadata_by_name("calibre:series_index")
    }

    /// The description.
    pub fn description(&self) -> (r: Option<String>)
        ensures
            opt_view(r) == package_metadata(self.package(), "dc:description"@),
    {
        self.metadata("dc:description")
    }

    /// The publisher.
    pub fn publisher(&self) -> (r: Option<String>)
        ensures
            opt_view(r) == package_metadata(self.package(), "dc:publisher"@),
    {
        self.metadata("dc:publisher")
    }

    /// The language.
    pub fn language(&self) -> (r: Option<String>)
        ensures
            opt_view(r) == package_metadata(self.package(), "dc:language"@),
    {
        self.metadata("dc:language")
    }

    /// The year: the first four characters of the date.
    pub fn year(&self) -> (r: Option<String>)
        ensures
            opt_view(r) == match package_metadata(self.package(), "dc:date"@) {
                Some(d) => Some(if d.len() > 4 { d.take(4) } else { d }),
                None => None,
            },
    {
        match self.metadata("dc:date") {
            Some(d) => {
                let v = chars_of(d.as_str());
                let n = if v.len() > 4 { 4 } else { v.len() };
                proof {
                    if v@.len() <= 4 {
                        assert(v@.subrange(0, n as int) =~= v@);
                    }
                }
                Some(string_of(&v, 0, n))
            },
            None => None,
        }
    }
}

/// The first place from `from` on where `pat` starts in `s`.
pub open spec fn find_text(s: Seq<char>, pat: Seq<char>, from: int) -> Option<int>
    decreases s.len() + 1 - from,
{
    if from < 0 || from + pat.len() > s.len() {
        None
    } else if starts_at(s, from, pat) {
        Some(from)
    } else {
        find_text(s, pat, from + 1)
    }
}

/// `s` from `i` on with each `pat`, from left to right and without overlap, replaced by
/// `rep`.
pub open spec fn replace_from(s: Seq<char>, pat: Seq<char>, rep: Seq<char>, i: int) -> Seq<char>
    decreases s.len() - i,
{
    if i < 0 || i >= s.len() {
        Seq::empty()
    } else if pat.len() > 0 && starts_at(s, i, pat) {
        rep + replace_from(s, pat, rep, i + pat.len())
    } else {
        seq![s[i]] + replace_from(s, pat, rep, i + 1)
    }
}

/// `s` with each `pat` replaced by `rep`, as `str::replace` does.
pub open spec fn replace_text(s: Seq<char>, pat: Seq<char>, rep: Seq<char>) -> Seq<char> {
    replace_from(s, pat, rep, 0)
}

/// A BISAC category as a subject writes it (`Fiction / Fantasy / General`, maybe after a code
/// and ` - `): what follows the first ` - `, trimmed, with ` / ` turned into `.`.
pub open spec fn bisac_category(c: Seq<char>) -> Seq<char> {
    let start = match find_text(c, " - "@, 0) {
        Some(i) => i + 3,
        None => 0,
    };
    replace_text(trims(c.skip(start), true, true), " / "@, "."@)
}

/// The categories of a subject: a list of BISAC categories separated by `|` when it holds a
/// ` / `, the subject itself otherwise.
pub open spec fn subject_categories(subject: Seq<char>) -> Seq<Seq<char>> {
    if find_text(subject, " / "@, 0) is Some {
        split_char(subject, '|').map_values(|c: Seq<char>| bisac_category(c))
    } else {
        seq![subject]
    }
}

/// The categories of the `dc:subject` elements among the nodes `c`, in order.
pub open spec fn subjects_categories(c: Seq<Node>) -> Seq<Seq<char>>
    decreases c.len(),
{
    if c.len() == 0 {
        Seq::empty()
    } else {
        let rest = subjects_categories(c.drop_last());
        let n = c.last();
        if tag_name_of(n) == Some("dc:subject"@) {
            match text_of(n) {
                Some(t) => rest + subject_categories(decode_from(t)),
                None => rest,
            }
        } else {
            rest
        }
    }
}

/// The categories of the subjects of a package document.
pub open spec fn package_categories(info: Node) -> Seq<Seq<char>> {
    match metadata_children(info) {
        Some(c) => subjects_categories(c),
        None => Seq::empty(),
    }
}

/// Texts in strictly increasing order.
pub open spec fn ascending(s: Seq<String>) -> bool {
    forall|i: int, j: int| 0 <= i < j < s.len() ==> text_order(#[trigger] s[i]@, #[trigger] s[j]@) < 0
}

/// The texts of `r` are those of `all`, each once or more.
pub open spec fn holds_exactly(r: Seq<String>, all: Seq<Seq<char>>) -> bool {
    &&& forall|k: int| 0 <= k < r.len() ==> all.contains(#[trigger] r[k]@)
    &&& forall|i: int| 0 <= i < all.len() ==> exists|k: int| 0 <= k < r.len() && #[trigger] r[k]@ == #[trigger] all[i]
}

/// What the order of texts is: a sign, reversed by swapping, zero only between equal texts.
proof fn lemma_text_order(a: Seq<char>, b: Seq<char>)
    ensures
        -1 <= text_order(a, b) <= 1,
        text_order(a, b) == -text_order(b, a),
        text_order(a, b) == 0 ==> a == b,
    decreases a.len(),
{
    lemma_chars_total();
    lemma_lex_antisymmetric(a, b, chars_in_order());
    if a.len() > 0 && b.len() > 0 && text_order(a, b) == 0 {
        assert(chars_in_order()(a[0], b[0]) == 0);
        assert(a[0] == b[0]);
        lemma_text_order(a.drop_first(), b.drop_first());
        assert(a =~= seq![a[0]] + a.drop_first());
        assert(b =~= seq![b[0]] + b.drop_first());
    }
}

/// Texts below one another in a row are below the last.
proof fn lemma_text_below(a: Seq<char>, b: Seq<char>, c: Seq<char>)
    requires
        text_order(a, b) < 0,
        text_order(b, c) < 0,
    ensures
        text_order(a, c) < 0,
{
    lemma_chars_total();
    lemma_lex_transitive(a, b, c, chars_in_order());
    lemma_text_order(a, c);
    lemma_text_order(a, b);
    lemma_text_order(b, c);
}

proof fn lemma_find_text_bounds(s: Seq<char>, pat: Seq<char>, from: int)
    ensures
        find_text(s, pat, from) matches Some(i) ==> from <= i && i + pat.len() <= s.len() && starts_at(s, i, pat),
    decreases s.len() + 1 - from,
{
    if !(from < 0 || from + pat.len() > s.len()) && !starts_at(s, from, pat) {
        lemma_find_text_bounds(s, pat, from + 1);
    }
}

/// Where `pat` first starts in `v`.
fn find_in(v: &Vec<char>, pat: &Vec<char>) -> (r: Option<usize>)
    ensures
        match r {
            Some(i) => find_text(v@, pat@, 0) == Some(i as int) && i + pat@.len() <= v@.len(),
            None => find_text(v@, pat@, 0) is None,
        },
{
    if pat.len() > v.len() {
        return None;
    }
    if pat.len() == 0 {
        assert(starts_at(v@, 0, pat@)) by {
            assert(v@.subrange(0, 0) =~= pat@);
        }
        return Some(0);
    }
    let mut i: usize = 0;
    while i <= v.len() - pat.len()
        invariant
            1 <= pat@.len() <= v@.len(),
            i <= v@.len() - pat@.len() + 1,
            find_text(v@, pat@, 0) == find_text(v@, pat@, i as int),
        decreases v@.len() - i,
    {
        if starts_with_at(v, i, pat) {
            return Some(i);
        }
        i += 1;
    }
    None
}

/// `v` with each `pat` replaced by `rep`.
fn replace_in(v: &Vec<char>, pat: &Vec<char>, rep: &str) -> (s: String)
    ensures
        s@ == replace_text(v@, pat@, rep@),
{
    let mut out = String::new();
    let mut i: usize = 0;
    while i < v.len()
        invariant
            i <= v@.len(),
            out@ + replace_from(v@, pat@, rep@, i as int) == replace_text(v@, pat@, rep@),
        decreases v@.len() - i,
    {
        let ghost before = out@;
        if pat.len() > 0 && starts_with_at(v, i, pat) {
            push_str(&mut out, rep);
            proof {
                assert(before + replace_from(v@, pat@, rep@, i as int) =~= out@ + replace_from(
                    v@,
                    pat@,
                    rep@,
                    i + pat@.len(),
                ));
            }
            i += pat.len();
        } else {
            push_one(&mut out, v[i]);
            proof {
                assert(before + replace_from(v@, pat@, rep@, i as int) =~= out@ + replace_from(
                    v@,
                    pat@,
                    rep@,
                    i + 1,
                ));
            }
            i += 1;
        }
    }
    assert(out@ + replace_from(v@, pat@, rep@, i as int) =~= out@);
    out
}

/// The BISAC category that a piece of a subject names.
fn bisac_category_of(c: &str) -> (r: String)
    ensures
        r@ == bisac_category(c@),
{
    proof {
        reveal_strlit(" - ");
        reveal_strlit(" / ");
    }
    let v = chars_of(c);
    let dash = chars_of(" - ");
    assert(dash@.len() == 3);
    let n = v.len();
    let start = match find_in(&v, &dash) {
        Some(i) => i + 3,
        None => 0,
    };
    let t = trimmed(&v, start, n, true, true);
    assert(v@.subrange(start as int, v@.len() as int) =~= c@.skip(start as int));
    let tv = chars_of(t.as_str());
    let slash = chars_of(" / ");
    replace_in(&tv, &slash, ".")
}

/// Puts `x` among the texts of `v`, in order, unless it is there.
fn insert_sorted(v: &mut Vec<String>, x: String)
    requires
        ascending(old(v)@),
    ensures
        ascending(final(v)@),
        forall|all: Seq<Seq<char>>| holds_exactly(old(v)@, all) ==> holds_exactly(final(v)@, all.push(x@)),
{
    let mut i: usize = 0;
    let mut order: i8 = -1;
    while i < v.len()
        invariant
            i <= v@.len(),
            ascending(v@),
            forall|k: int| 0 <= k < i ==> text_order(#[trigger] v@[k]@, x@) < 0,
        ensures
            i <= v@.len(),
            ascending(v@),
            forall|k: int| 0 <= k < i ==> text_order(#[trigger] v@[k]@, x@) < 0,
            i < v@.len() ==> text_order(v@[i as int]@, x@) >= 0,
        decreases v@.len() - i,
    {
        order = order_of_texts(v[i].as_str(), x.as_str());
        if order >= 0 {
            break;
        }
        i += 1;
    }
    let ghost old_v = v@;
    if i < v.len() && order_of_texts(v[i].as_str(), x.as_str()) == 0 {
        proof {
            lemma_text_order(v@[i as int]@, x@);
            assert forall|all: Seq<Seq<char>>| holds_exactly(old_v, all) implies holds_exactly(old_v, all.push(x@)) by {
                assert forall|k: int| 0 <= k < old_v.len() implies all.push(x@).contains(#[trigger] old_v[k]@) by {
                    assert(all.contains(old_v[k]@));
                    let j = choose|j: int| 0 <= j < all.len() && all[j] == old_v[k]@;
                    assert(all.push(x@)[j] == old_v[k]@);
                }
                assert forall|j: int| 0 <= j < all.push(x@).len() implies exists|k: int| 0 <= k < old_v.len() && #[trigger] old_v[k]@ == #[trigger] all.push(x@)[j] by {
                    if j == all.len() {
                        assert(old_v[i as int]@ == all.push(x@)[j]);
                    } else {
                        assert(all.push(x@)[j] == all[j]);
                    }
                }
            }
        }
        return;
    }
    proof {
        assert forall|k: int| i <= k < old_v.len() implies text_order(x@, #[trigger] old_v[k]@) < 0 by {
            let o = text_order(old_v[i as int]@, x@);
            lemma_text_order(old_v[i as int]@, x@);
            assert(o == 1);
            if k > i {
                assert(text_order(old_v[i as int]@, old_v[k]@) < 0);
                lemma_text_below(x@, old_v[i as int]@, old_v[k]@);
            }
        }
    }
    let ghost xv = x@;
    v.insert(i, x);
    proof {
        let nv = v@;
        assert(nv == old_v.insert(i as int, nv[i as int]));
        assert forall|a: int, b: int| 0 <= a < b < nv.len() implies text_order(#[trigger] nv[a]@, #[trigger] nv[b]@) < 0 by {
            if b < i {
                assert(nv[a] == old_v[a] && nv[b] == old_v[b]);
            } else if b == i {
                assert(nv[a] == old_v[a]);
            } else if a == i {
                assert(nv[b] == old_v[b - 1]);
            } else if a < i {
                assert(nv[a] == old_v[a] && nv[b] == old_v[b - 1]);
                lemma_text_below(old_v[a]@, xv, old_v[b - 1]@);
            } else {
                assert(nv[a] == old_v[a - 1] && nv[b] == old_v[b - 1]);
            }
        }
        assert forall|all: Seq<Seq<char>>| holds_exactly(old_v, all) implies holds_exactly(nv, all.push(xv)) by {
            assert forall|k: int| 0 <= k < nv.len() implies all.push(xv).contains(#[trigger] nv[k]@) by {
                if k == i {
                    assert(all.push(xv)[all.len() as int] == nv[k]@);
                } else {
                    let ok = if k < i { k } else { k - 1 };
                    assert(nv[k] == old_v[ok]);
                    assert(all.contains(old_v[ok]@));
                    let j = choose|j: int| 0 <= j < all.len() && all[j] == old_v[ok]@;
                    assert(all.push(xv)[j] == nv[k]@);
                }
            }
            assert forall|j: int| 0 <= j < all.push(xv).len() implies exists|k: int| 0 <= k < nv.len() && #[trigger] nv[k]@ == #[trigger] all.push(xv)[j] by {
                if j == all.len() {
                    assert(nv[i as int]@ == all.push(xv)[j]);
                } else {
                    assert(all.push(xv)[j] == all[j]);
                    let k = choose|k: int| 0 <= k < old_v.len() && #[trigger] old_v[k]@ == all[j];
                    if k < i {
                        assert(nv[k] == old_v[k]);
                    } else {
                        assert(nv[k + 1] == old_v[k]);
                    }
                }
            }
        }
    }
}

/// Puts the categories of a subject among the texts of `v`, in order, each once.
fn add_subject(v: &mut Vec<String>, subject: String)
    requires
        ascending(old(v)@),
    ensures
        ascending(final(v)@),
        forall|all: Seq<Seq<char>>| #[trigger] holds_exactly(old(v)@, all) ==> holds_exactly(final(v)@, all + subject_categories(subject@)),
{
    proof {
        reveal_strlit(" / ");
    }
    let ghost v0 = v@;
    let sv = chars_of(subject.as_str());
    let slash = chars_of(" / ");
    match find_in(&sv, &slash) {
        Some(_) => {
            let pieces = split_on(subject.as_str(), '|');
            let ghost cats = split_char(subject@, '|').map_values(|c: Seq<char>| bisac_category(c));
            let mut j: usize = 0;
            proof {
                assert forall|all: Seq<Seq<char>>| #[trigger] holds_exactly(v0, all) implies holds_exactly(v@, all + cats.take(0)) by {
                    assert(all + cats.take(0) =~= all);
                }
            }
            while j < pieces.len()
                invariant
                    j <= pieces@.len(),
                    string_views(pieces@) == split_char(subject@, '|'),
                    cats == split_char(subject@, '|').map_values(|c: Seq<char>| bisac_category(c)),
                    ascending(v@),
                    forall|all: Seq<Seq<char>>| #[trigger] holds_exactly(v0, all) ==> holds_exactly(v@, all + cats.take(j as int)),
                decreases pieces@.len() - j,
            {
                let c = bisac_category_of(pieces[j].as_str());
                let ghost before = v@;
                proof {
                    assert(string_views(pieces@)[j as int] == pieces@[j as int]@);
                    assert(c@ == cats[j as int]);
                }
                insert_sorted(v, c);
                proof {
                    assert forall|all: Seq<Seq<char>>| #[trigger] holds_exactly(v0, all) implies holds_exactly(v@, all + cats.take(j + 1)) by {
                        assert(holds_exactly(before, all + cats.take(j as int)));
                        assert((all + cats.take(j as int)).push(cats[j as int]) =~= all + cats.take(j + 1));
                    }
                }
                j += 1;
            }
            proof {
                assert(cats.take(j as int) =~= cats);
                assert(subject_categories(subject@) == cats);
            }
        },
        None => {
            let ghost sub = subject@;
            insert_sorted(v, subject);
            proof {
                assert(subject_categories(sub) == seq![sub]);
                assert forall|all: Seq<Seq<char>>| #[trigger] holds_exactly(v0, all) implies holds_exactly(v@, all + subject_categories(sub)) by {
                    assert(all.push(sub) =~= all + seq![sub]);
                }
            }
        },
    }
}

impl EpubDocument {
    /// The categories of the book's subjects, in order, each once.
    pub fn categories(&self) -> (r: Vec<String>)
        ensures
            ascending(r@),
            holds_exactly(r@, package_categories(self.package())),
    {
        let mut result: Vec<String> = Vec::new();
        proof {
            reveal_strlit("dc:subject");
        }
        match self.metadata_nodes() {
            Some(children) => {
                let mut k: usize = 0;
                assert(subjects_categories(children@.take(0)) =~= Seq::<Seq<char>>::empty());
                while k < children.len()
                    invariant
                        k <= children@.len(),
                        ascending(result@),
                        holds_exactly(result@, subjects_categories(children@.take(k as int))),
                    decreases children@.len() - k,
                {
                    let child = &children[k];
                    let ghost done = subjects_categories(children@.take(k as int));
                    proof {
                        assert(children@.take(k + 1).drop_last() =~= children@.take(k as int));
                        assert(children@.take(k + 1).last() == children@[k as int]);
                    }
                    let is_subject = match child.tag_name() {
                        Some(t) => str_eq(t, "dc:subject"),
                        None => false,
                    };
                    if is_subject {
                        match child.text() {
                            Some(t) => {
                                let subject = decode_entities(t);
                                add_subject(&mut result, subject);
                            },
                            None => {},
                        }
                    }
                    k += 1;
                }
                assert(children@.take(k as int) =~= children@);
            },
            None => {},
        }
        result
    }
}

/// `rel` joined to the directory `dir`, as `Path::join` does: a path from the root stands
/// alone, a relative one follows the directory after a slash.
pub open spec fn path_join(dir: Seq<char>, rel: Seq<char>) -> Seq<char> {
    if rooted(rel) || dir.len() == 0 {
        rel
    } else {
        dir + seq!['/'] + rel
    }
}

/// The title of a navigation point: the text of the `text` element of its `navLabel`,
/// entities decoded; empty when there is none.
pub open spec fn nav_title(n: Node) -> Seq<char> {
    match find_in_nodes(seq![n], "navLabel"@) {
        Some(label) => match find_in_nodes(seq![label], "text"@) {
            Some(t) => match text_of(t) {
                Some(x) => decode_from(x),
                None => Seq::empty(),
            },
            None => Seq::empty(),
        },
        None => Seq::empty(),
    }
}

/// Where a navigation point leads: the `src` attribute of its `content`; empty when there is
/// none.
pub open spec fn nav_src(n: Node) -> Seq<char> {
    match find_in_nodes(seq![n], "content"@) {
        Some(c) => match attr_of(c, "src"@) {
            Some(v) => v,
            None => Seq::empty(),
        },
        None => Seq::empty(),
    }
}

/// An entry of a table of contents as the navigation map gives it.
pub struct NavEntry {
    pub title: Seq<char>,
    pub uri: Seq<char>,
    pub index: int,
    pub children: Seq<NavEntry>,
}

/// The entries of the navigation points among `nodes`, numbered from `index` on in the order
/// of a walk that numbers each point before its own points, and the next number. A point's
/// own points are read when it has more than two children.
pub open spec fn toc_walk(nodes: Seq<Node>, dir: Seq<char>, index: int) -> (Seq<NavEntry>, int)
    decreases nodes,
{
    if nodes.len() == 0 {
        (Seq::empty(), index)
    } else {
        let (front, mid) = toc_walk(nodes.drop_last(), dir, index);
        let n = nodes.last();
        if tag_name_of(n) == Some("navPoint"@) {
            let (kids, end) = match n {
                Node::Element(e) => if e.children@.len() > 2 {
                    proof {
                        assert(decreases_to!(nodes => e.children@));
                    }
                    toc_walk(e.children@, dir, mid + 1)
                } else {
                    (Seq::empty(), mid + 1)
                },
                _ => (Seq::empty(), mid + 1),
            };
            let entry = NavEntry {
                title: nav_title(n),
                uri: normalized_path(path_join(dir, nav_src(n))),
                index: mid,
                children: kids,
            };
            (front.push(entry), end)
        } else {
            (front, mid)
        }
    }
}

/// The entries `es` are those that `ns` describe.
pub open spec fn entries_are(es: Seq<TocEntry>, ns: Seq<NavEntry>) -> bool
    decreases ns,
{
    if ns.len() == 0 {
        es.len() == 0
    } else {
        &&& es.len() == ns.len()
        &&& entry_is(es.last(), ns.last())
        &&& entries_are(es.drop_last(), ns.drop_last())
    }
}

/// The entry `e` is the one that `n` describes, its location the URI of `n`.
pub open spec fn entry_is(e: TocEntry, n: NavEntry) -> bool
    decreases n,
{
    &&& e.title@ == n.title
    &&& e.location is Uri
    &&& e.location->Uri_0@ == n.uri
    &&& e.index == n.index
    &&& entries_are(e.children@, n.children)
}

/// The children of a node; none for text.
pub open spec fn children_of(n: Node) -> Seq<Node> {
    match n {
        Node::Element(e) => e.children@,
        _ => Seq::empty(),
    }
}

/// A walk ends at its start or later.
proof fn lemma_walk_start(nodes: Seq<Node>, dir: Seq<char>, index: int)
    ensures
        index <= toc_walk(nodes, dir, index).1,
    decreases nodes,
{
    if nodes.len() > 0 {
        lemma_walk_start(nodes.drop_last(), dir, index);
        let mid = toc_walk(nodes.drop_last(), dir, index).1;
        match nodes.last() {
            Node::Element(e) => {
                if e.children@.len() > 2 {
                    assert(decreases_to!(nodes => e.children@));
                    lemma_walk_start(e.children@, dir, mid + 1);
                }
            },
            _ => {},
        }
    }
}

/// A walk over the first nodes of a sequence ends no later than the walk over all of them.
proof fn lemma_walk_prefix(nodes: Seq<Node>, dir: Seq<char>, index: int, k: int)
    requires
        0 <= k <= nodes.len(),
    ensures
        toc_walk(nodes.take(k), dir, index).1 <= toc_walk(nodes, dir, index).1,
    decreases nodes.len() - k,
{
    if k < nodes.len() {
        lemma_walk_prefix(nodes, dir, index, k + 1);
        let t = nodes.take(k + 1);
        assert(t.drop_last() =~= nodes.take(k));
        let mid = toc_walk(nodes.take(k), dir, index).1;
        match t.last() {
            Node::Element(e) => {
                if e.children@.len() > 2 {
                    lemma_walk_start(e.children@, dir, mid + 1);
                }
            },
            _ => {},
        }
    } else {
        assert(nodes.take(k) =~= nodes);
    }
}

/// `rel` joined to the directory `dir`.
fn join_path(dir: &str, rel: &str) -> (r: String)
    ensures
        r@ == path_join(dir@, rel@),
{
    let rv = chars_of(rel);
    let dv = chars_of(dir);
    if (rv.len() > 0 && rv[0] == '/') || dv.len() == 0 {
        to_string(rel)
    } else {
        let mut s = to_string(dir);
        push_one(&mut s, '/');
        push_str(&mut s, rel);
        assert(s@ =~= dir@ + seq!['/'] + rel@);
        s
    }
}

impl EpubDocument {
    /// The table of contents that the navigation points among the children of `node` make,
    /// their links relative to `toc_dir`; `index` numbers the entries, and is left past the
    /// last.
    pub fn walk_toc(&self, node: &Node, toc_dir: &str, index: &mut usize) -> (r: Vec<TocEntry>)
        requires
            toc_walk(children_of(*node), toc_dir@, *old(index) as int).1 <= usize::MAX,
        ensures
            entries_are(r@, toc_walk(children_of(*node), toc_dir@, *old(index) as int).0),
            *final(index) == toc_walk(children_of(*node), toc_dir@, *old(index) as int).1,
        decreases node,
    {
        let ghost i0 = *index as int;
        let ghost dir = toc_dir@;
        let mut entries: Vec<TocEntry> = Vec::new();
        proof {
            reveal_strlit("navPoint");
            reveal_strlit("navLabel");
            reveal_strlit("text");
            reveal_strlit("content");
            reveal_strlit("src");
        }
        match node.children() {
            Some(children) => {
                let ghost cs = children@;
                let mut k: usize = 0;
                assert(cs.take(0) =~= Seq::<Node>::empty());
                while k < children.len()
                    invariant
                        k <= cs.len(),
                        cs == children@,
                        cs == children_of(*node),
                        dir == toc_dir@,
                        toc_walk(cs, dir, i0).1 <= usize::MAX,
                        *index == toc_walk(cs.take(k as int), dir, i0).1,
                        entries_are(entries@, toc_walk(cs.take(k as int), dir, i0).0),
                    decreases cs.len() - k,
                {
                    let child = &children[k];
                    let ghost before = entries@;
                    let ghost mid = *index as int;
                    proof {
                        assert(cs.take(k + 1).drop_last() =~= cs.take(k as int));
                        assert(cs.take(k + 1).last() == cs[k as int]);
                        lemma_walk_prefix(cs, dir, i0, k + 1);
                    }
                    let is_point = match child.tag_name() {
                        Some(t) => str_eq(t, "navPoint"),
                        None => false,
                    };
                    if is_point {
                        let title = match child.find("navLabel") {
                            Some(label) => match label.find("text") {
                                Some(t) => match t.text() {
                                    Some(x) => decode_entities(x),
                                    None => String::new(),
                                },
                                None => String::new(),
                            },
                            None => String::new(),
                        };
                        let rel_uri = match child.find("content") {
                            Some(c) => match c.attr("src") {
                                Some(v) => to_string(v),
                                None => String::new(),
                            },
                            None => String::new(),
                        };
                        let joined = join_path(toc_dir, rel_uri.as_str());
                        let uri = joined.as_str().normalize();
                        proof {
                            let cn = cs[k as int];
                            if children_of(cn).len() > 2 {
                                lemma_walk_start(children_of(cn), dir, mid + 1);
                            }
                            assert(toc_walk(cs.take(k + 1), dir, i0).1 >= mid + 1);
                        }
                        let current_index = *index;
                        *index = *index + 1;
                        let many = match child.children() {
                            Some(c) => c.len() > 2,
                            None => false,
                        };
                        let sub_entries = if many {
                            proof {
                                assert(decreases_to!(node => *child));
                            }
                            self.walk_toc(child, toc_dir, index)
                        } else {
                            Vec::new()
                        };
                        let ghost sub_view = sub_entries@;
                        let ghost title_view = title@;
                        let ghost uri_view = uri@;
                        entries.push(TocEntry { title, location: Location::Uri(uri), index: current_index, children: sub_entries });
                        proof {
                            assert(entries@.drop_last() =~= before);
                            let ns = toc_walk(cs.take(k + 1), dir, i0).0;
                            assert(ns.drop_last() == toc_walk(cs.take(k as int), dir, i0).0);
                            assert(ns.last().title == title_view);
                            assert(ns.last().uri == uri_view);
                            assert(ns.last().index == mid);
                            assert(entries_are(sub_view, ns.last().children));
                            assert(entry_is(entries@.last(), ns.last()));
                        }
                    }
                    k += 1;
                }
                assert(cs.take(k as int) =~= cs);
            },
            None => {},
        }
        entries
    }
}

/// The path of the navigation file of a package document in `parent`: the `href` of the
/// manifest entry whose id the `toc` attribute of the spine names, joined to `parent`.
pub open spec fn toc_path_of(info: Node, parent: Seq<char>) -> Option<Seq<char>> {
    let toc_id = match find_in_nodes(seq![info], "spine"@) {
        Some(sp) => attr_of(sp, "toc"@),
        None => None,
    };
    let href = match toc_id {
        Some(id) => match find_in_nodes(seq![info], "manifest"@) {
            Some(m) => match find_id_in_nodes(seq![m], id) {
                Some(entry) => attr_of(entry, "href"@),
                None => None,
            },
            None => None,
        },
        None => None,
    };
    match href {
        Some(h) => Some(normalized_path(path_join(parent, h))),
        None => None,
    }
}

/// The directory of a normal path (no empty names, no slash at its end), as `Path::parent`
/// gives it (empty where it gives none): what comes before its last slash, the root when that
/// slash is the first character.
pub open spec fn parent_dir(p: Seq<char>) -> Seq<char> {
    match last_index_of(p, '/') {
        Some(k) => if k == 0 {
            if p.len() == 1 {
                Seq::empty()
            } else {
                seq!['/']
            }
        } else {
            p.take(k)
        },
        None => Seq::empty(),
    }
}

/// The directory of a path.
pub fn parent_dir_of(p: &str) -> (r: String)
    ensures
        r@ == parent_dir(p@),
{
    let v = chars_of(p);
    proof {
        lemma_last_index_of(v@, '/');
    }
    let mut i = v.len();
    assert(v@.take(i as int) =~= v@);
    while i > 0 && v[i - 1] != '/'
        invariant
            i <= v@.len(),
            last_index_of(v@, '/') == last_index_of(v@.take(i as int), '/'),
        decreases i,
    {
        assert(v@.take(i as int).drop_last() =~= v@.take(i - 1));
        i -= 1;
    }
    if i == 0 {
        assert(last_index_of(v@.take(0), '/') is None);
        String::new()
    } else {
        let k = i - 1;
        assert(last_index_of(v@.take(i as int), '/') == Some(k as int));
        if k == 0 {
            if v.len() == 1 {
                String::new()
            } else {
                let mut s = String::new();
                push_one(&mut s, '/');
                assert(s@ =~= seq!['/']);
                s
            }
        } else {
            string_of(&v, 0, k)
        }
    }
}

impl EpubDocument {
    /// The path of the navigation file in the archive.
    pub fn toc_path(&self) -> (r: Option<String>)
        ensures
            opt_view(r) == toc_path_of(self.package(), self.package_dir()),
    {
        proof {
            reveal_strlit("spine");
            reveal_strlit("toc");
            reveal_strlit("manifest");
            reveal_strlit("href");
        }
        let toc_id = match self.info.find("spine") {
            Some(sp) => sp.attr("toc"),
            None => None,
        };
        let href = match toc_id {
            Some(id) => match self.info.find("manifest") {
                Some(m) => match m.find_by_id(id) {
                    Some(entry) => entry.attr("href"),
                    None => None,
                },
                None => None,
            },
            None => None,
        };
        match href {
            Some(h) => {
                let joined = join_path(self.parent.as_str(), h);
                Some(joined.as_str().normalize())
            },
            None => None,
        }
    }

    /// The table of contents of a navigation file, from the root of that file read at
    /// `toc_path`: the entries of the points of its `navMap`, numbered from zero.
    pub fn toc(&self, ncx: &Node, toc_path: &str) -> (r: Option<Vec<TocEntry>>)
        requires
            find_in_nodes(seq![*ncx], "navMap"@) matches Some(map) ==> toc_walk(children_of(map), parent_dir(toc_path@), 0).1
                <= usize::MAX,
        ensures
            match find_in_nodes(seq![*ncx], "navMap"@) {
                Some(map) => r matches Some(entries) && entries_are(entries@, toc_walk(children_of(map), parent_dir(toc_path@), 0).0),
                None => r is None,
            },
    {
        proof {
            reveal_strlit("navMap");
        }
        let toc_dir = parent_dir_of(toc_path);
        match ncx.find("navMap") {
            Some(map) => {
                let mut index: usize = 0;
                Some(self.walk_toc(map, toc_dir.as_str(), &mut index))
            },
            None => None,
        }
    }
}

} // verus!
