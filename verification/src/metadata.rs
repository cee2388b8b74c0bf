use vstd::prelude::*;
use vstd::string::{StrSliceExecFns, StringSliceAdditionalSpecFns};
use crate::chars::{
    char_is_whitespace, chars_of, find_char, index_of, lemma_index_of, opt_chars, push_one, push_str, split_char, split_on,
    str_eq, string_of, string_views, to_string,
};
use crate::chars::is_whitespace;
use crate::dictionary::{alphanumeric, char_is_alphanumeric, trim_end, trim_start};
use crate::document::{ascii_pieces, asciify, nfkd};
use vstd::utf8::{encode_utf8, is_char_boundary};
use crate::helpers::{keeps, path_names};
use crate::symbolic_path::{last_index_of, lemma_last_index_of, rfind_separator};

verus! {

#[derive(Debug, Copy, Clone, PartialEq, Eq, Structural)]
pub enum PageScheme {
    Any,
    EvenOdd,
}

#[derive(Debug, Copy, Clone, PartialEq, Eq, Structural)]
pub enum TextAlign {
    Justify,
    Left,
    Right,
    Center,
}

#[derive(Debug, Copy, Clone, PartialEq, Eq, Structural)]
pub enum ZoomMode {
    FitToPage,
    FitToWidth,
}

#[derive(Debug, Copy, Clone, PartialEq, Eq, Structural)]
pub enum SimpleStatus {
    New,
    Reading,
    Finished,
}

#[derive(Debug, Copy, Clone, PartialEq, Eq, Structural)]
pub enum SortMethod {
    Opened,
    Added,
    Progress,
    Title,
    Year,
    Author,
    Pages,
    Size,
    Kind,
    FileName,
    FilePath,
}

/// What is known of a book's file: its path, its kind (the extension) and its size.
#[derive(Debug, Clone)]
pub struct FileInfo {
    pub path: String,
    pub kind: String,
    pub size: u64,
}

impl Default for FileInfo {
    fn default() -> (f: FileInfo)
        ensures
            f.path@.len() == 0,
            f.kind@.len() == 0,
            f.size == 0,
    {
        FileInfo { path: String::new(), kind: String::new(), size: 0 }
    }
}

pub open spec fn text_align_icon(a: TextAlign) -> Seq<char> {
    match a {
        TextAlign::Justify => "align-justify"@,
        TextAlign::Left => "align-left"@,
        TextAlign::Right => "align-right"@,
        TextAlign::Center => "align-center"@,
    }
}

impl TextAlign {
    /// The name of the icon that shows the alignment.
    pub fn icon_name(&self) -> (s: &'static str)
        ensures
            s@ == text_align_icon(*self),
    {
        match self {
            TextAlign::Justify => "align-justify",
            TextAlign::Left => "align-left",
            TextAlign::Right => "align-right",
            TextAlign::Center => "align-center",
        }
    }
}

pub open spec fn sort_label(m: SortMethod) -> Seq<char> {
    match m {
        SortMethod::Opened => "Date Opened"@,
        SortMethod::Added => "Date Added"@,
        SortMethod::Progress => "Progress"@,
        SortMethod::Author => "Author"@,
        SortMethod::Title => "Title"@,
        SortMethod::Year => "Year"@,
        SortMethod::Size => "File Size"@,
        SortMethod::Kind => "File Type"@,
        SortMethod::Pages => "Pages Count"@,
        SortMethod::FileName => "File Name"@,
        SortMethod::FilePath => "File Path"@,
    }
}

impl SortMethod {
    /// Whether the method sorts in decreasing order by default: all but the textual ones.
    pub fn reverse_order(self) -> (b: bool)
        ensures
            b == !(self == SortMethod::Author || self == SortMethod::Title || self
                == SortMethod::Kind || self == SortMethod::FileName || self
                == SortMethod::FilePath),
    {
        match self {
            SortMethod::Author | SortMethod::Title | SortMethod::Kind | SortMethod::FileName
            | SortMethod::FilePath => false,
            _ => true,
        }
    }

    pub fn label(&self) -> (s: &'static str)
        ensures
            s@ == sort_label(*self),
    {
        match *self {
            SortMethod::Opened => "Date Opened",
            SortMethod::Added => "Date Added",
            SortMethod::Progress => "Progress",
            SortMethod::Author => "Author",
            SortMethod::Title => "Title",
            SortMethod::Year => "Year",
            SortMethod::Size => "File Size",
            SortMethod::Kind => "File Type",
            SortMethod::Pages => "Pages Count",
            SortMethod::FileName => "File Name",
            SortMethod::FilePath => "File Path",
        }
    }

    pub fn title(self) -> (s: String)
        ensures
            s@ == "Sort by: "@ + sort_label(self),
    {
        let mut s = to_string("Sort by: ");
        push_str(&mut s, self.label());
        s
    }
}

/// How far a book has been read, as the reading state records it.
#[derive(Debug, Clone)]
pub struct ReaderInfo {
    /// When the book was last opened, in seconds of local time.
    pub opened: i64,
    pub current_page: usize,
    pub pages_count: usize,
    pub finished: bool,
}

/// What the library knows of a book.
#[derive(Debug, Clone)]
pub struct Info {
    pub title: String,
    pub subtitle: String,
    pub author: String,
    pub year: String,
    pub language: String,
    pub publisher: String,
    pub series: String,
    pub edition: String,
    pub volume: String,
    pub number: String,
    pub isbn: String,
    pub categories: Vec<String>,
    pub file: FileInfo,
    pub reader: Option<ReaderInfo>,
    /// When the book was added, in seconds of local time.
    pub added: i64,
}

/// The reading status of a book without the progress: new, being read, or finished.
pub open spec fn simple_status_of(reader: Option<ReaderInfo>) -> SimpleStatus {
    match reader {
        Some(r) => if r.finished {
            SimpleStatus::Finished
        } else {
            SimpleStatus::Reading
        },
        None => SimpleStatus::New,
    }
}

/// The file name of a path as `Path::file_name` gives it on Unix: the last name of the path,
/// unless there is none or it is `..`.
pub open spec fn file_name_of(path: Seq<char>) -> Option<Seq<char>> {
    let names = path_names(path);
    if names.len() == 0 || names.last() == seq!['.', '.'] {
        None
    } else {
        Some(names.last())
    }
}

/// The stem of a file name as `Path::file_stem` takes it: the name before its last dot, unless
/// that dot is the first character or there is none.
pub open spec fn stem_of(name: Seq<char>) -> Seq<char> {
    match last_index_of(name, '.') {
        Some(k) => if k > 0 {
            name.take(k)
        } else {
            name
        },
        None => name,
    }
}

/// `" #"`, `" — vol. "`, `": "` and the like.
pub open spec fn text(s: &str) -> Seq<char> {
    s@
}

/// The title of a book as it is shown: its own title, with the number when it belongs to no
/// series, the volume, the subtitle (after a colon when a letter or digit meets another, else
/// after a space) and the series with the number; the file's stem when it has no title.
pub open spec fn shown_title(
    title: Seq<char>,
    subtitle: Seq<char>,
    volume: Seq<char>,
    number: Seq<char>,
    series: Seq<char>,
    stem: Seq<char>,
) -> Seq<char> {
    if title.len() == 0 {
        stem
    } else {
        let t1 = if number.len() > 0 && series.len() == 0 {
            title + seq![' ', '#'] + number
        } else {
            title
        };
        let t2 = if volume.len() > 0 {
            t1 + seq![' ', '\u{2014}', ' ', 'v', 'o', 'l', '.', ' '] + volume
        } else {
            t1
        };
        let t3 = if subtitle.len() > 0 {
            if alphanumeric(subtitle[0]) && alphanumeric(t2.last()) {
                t2 + seq![':', ' '] + subtitle
            } else {
                t2 + seq![' '] + subtitle
            }
        } else {
            t2
        };
        if series.len() > 0 && number.len() > 0 {
            t3 + seq![' ', '('] + series + seq![' ', '#'] + number + seq![')']
        } else {
            t3
        }
    }
}

/// The name by which an author is sorted: the last word, between spaces, of the part of the
/// name before the first comma.
pub open spec fn sorting_author(author: Seq<char>) -> Seq<char> {
    split_char(split_char(author, ',')[0], ' ').last()
}

proof fn lemma_split_first(s: Seq<char>, c: char)
    ensures
        split_char(s, c).len() > 0,
        split_char(s, c)[0] == match index_of(s, c) {
            Some(k) => s.take(k),
            None => s,
        },
{
    lemma_index_of(s, c);
}

proof fn lemma_split_last(s: Seq<char>, c: char)
    ensures
        split_char(s, c).len() > 0,
        split_char(s, c).last() == match last_index_of(s, c) {
            Some(k) => s.skip(k + 1),
            None => s,
        },
    decreases s.len(),
{
    lemma_index_of(s, c);
    lemma_last_index_of(s, c);
    match index_of(s, c) {
        Some(k) => {
            let t = s.skip(k + 1);
            lemma_split_last(t, c);
            lemma_last_index_of(t, c);
            let sp = split_char(s, c);
            assert(sp == seq![s.take(k)] + split_char(t, c));
            assert(sp.last() == split_char(t, c).last());
            match last_index_of(t, c) {
                Some(k2) => {
                    assert(s[k + 1 + k2] == t[k2]);
                    match last_index_of(s, c) {
                        Some(i) => {
                            if i > k + 1 + k2 {
                                assert(s[i] == t[i - k - 1]);
                            }
                            assert(i == k + 1 + k2);
                            assert(s.skip(i + 1) =~= t.skip(k2 + 1));
                        },
                        None => {},
                    }
                },
                None => {
                    match last_index_of(s, c) {
                        Some(i) => {
                            if i > k {
                                assert(s[i] == t[i - k - 1]);
                            }
                            assert(i == k);
                        },
                        None => {},
                    }
                },
            }
        },
        None => {
            match last_index_of(s, c) {
                Some(i) => {},
                None => {},
            }
        },
    }
}

/// The last name of a path, if it has one.
pub fn file_name(path: &str) -> (r: Option<String>)
    ensures
        opt_chars(r) == file_name_of(path@),
{
    let pieces = split_on(path, '/');
    let ghost sp = split_char(path@, '/');
    let mut last: Option<String> = None;
    let mut i: usize = 0;
    while i < pieces.len()
        invariant
            0 <= i <= pieces@.len(),
            string_views(pieces@) == sp,
            match last {
                Some(s) => {
                    let f = sp.take(i as int).filter(keeps());
                    f.len() > 0 && s@ == f.last()
                },
                None => sp.take(i as int).filter(keeps()).len() == 0,
            },
        decreases pieces@.len() - i,
    {
        let p = pieces[i].as_str();
        proof {
            reveal_strlit("");
            reveal_strlit(".");
            assert(""@ =~= Seq::<char>::empty());
            assert("."@ =~= seq!['.']);
            assert(sp[i as int] == p@);
            assert(sp.take(i + 1) =~= sp.take(i as int).push(p@));
            sp.take(i as int).lemma_filter_push(p@, keeps());
        }
        if !(str_eq(p, "") || str_eq(p, ".")) {
            assert(p@.len() == 0 ==> p@ =~= Seq::<char>::empty());
            last = Some(to_string(p));
        }
        i += 1;
    }
    assert(sp.take(sp.len() as int) =~= sp);
    match last {
        Some(s) => {
            proof {
                reveal_strlit("..");
                assert(".."@ =~= seq!['.', '.']);
            }
            if str_eq(s.as_str(), "..") {
                None
            } else {
                Some(s)
            }
        },
        None => None,
    }
}

/// The stem of a file name.
pub fn file_name_stem(name: &str) -> (r: String)
    ensures
        r@ == stem_of(name@),
{
    let v = chars_of(name);
    proof {
        lemma_last_index_of(v@, '.');
    }
    let found = rfind_separator(&v);
    match found {
        Some(k) => {
            if k > 0 {
                string_of(&v, 0, k)
            } else {
                to_string(name)
            }
        },
        None => to_string(name),
    }
}

/// Whether a character has the Alphabetic or the Numeric property.
fn is_alphanumeric(c: char) -> (b: bool)
    ensures
        b == alphanumeric(c),
{
    char_is_alphanumeric(c)
}

impl Info {
    /// The reading status of the book, without the progress.
    pub fn simple_status(&self) -> (s: SimpleStatus)
        ensures
            s == simple_status_of(self.reader),
    {
        match &self.reader {
            Some(r) => if r.finished {
                SimpleStatus::Finished
            } else {
                SimpleStatus::Reading
            },
            None => SimpleStatus::New,
        }
    }

    /// The stem of the book's file name.
    pub fn file_stem(&self) -> (s: String)
        requires
            file_name_of(self.file.path@) is Some,
        ensures
            s@ == stem_of(file_name_of(self.file.path@)->0),
    {
        match file_name(self.file.path.as_str()) {
            Some(name) => file_name_stem(name.as_str()),
            None => String::new(),
        }
    }

    /// The title as it is shown.
    pub fn title(&self) -> (t: String)
        requires
            self.title@.len() == 0 ==> file_name_of(self.file.path@) is Some,
        ensures
            t@ == shown_title(
                self.title@,
                self.subtitle@,
                self.volume@,
                self.number@,
                self.series@,
                if self.title@.len() == 0 {
                    stem_of(file_name_of(self.file.path@)->0)
                } else {
                    Seq::empty()
                },
            ),
    {
        if self.title.as_str().unicode_len() == 0 {
            return self.file_stem();
        }
        let mut title = to_string(self.title.as_str());
        let has_number = self.number.as_str().unicode_len() > 0;
        let has_series = self.series.as_str().unicode_len() > 0;
        if has_number && !has_series {
            push_str(&mut title, " #");
            push_str(&mut title, self.number.as_str());
        }
        if self.volume.as_str().unicode_len() > 0 {
            push_str(&mut title, " \u{2014} vol. ");
            push_str(&mut title, self.volume.as_str());
        }
        if self.subtitle.as_str().unicode_len() > 0 {
            let first = self.subtitle.as_str().get_char(0);
            let n = title.as_str().unicode_len();
            let last = title.as_str().get_char(n - 1);
            if is_alphanumeric(first) && is_alphanumeric(last) {
                push_str(&mut title, ": ");
            } else {
                push_str(&mut title, " ");
            }
            push_str(&mut title, self.subtitle.as_str());
        }
        if has_series && has_number {
            push_str(&mut title, " (");
            push_str(&mut title, self.series.as_str());
            push_str(&mut title, " #");
            push_str(&mut title, self.number.as_str());
            push_str(&mut title, ")");
        }
        proof {
            reveal_strlit(" #");
            reveal_strlit(" \u{2014} vol. ");
            reveal_strlit(": ");
            reveal_strlit(" ");
            reveal_strlit(" (");
            reveal_strlit(")");
        }
        title
    }

    /// The label of the book: its title, and its author after a middle dot when there is one.
    pub fn label(&self) -> (l: String)
        requires
            self.title@.len() == 0 ==> file_name_of(self.file.path@) is Some,
        ensures
            l@ == if self.author@.len() > 0 {
                shown_title(
                    self.title@,
                    self.subtitle@,
                    self.volume@,
                    self.number@,
                    self.series@,
                    if self.title@.len() == 0 {
                        stem_of(file_name_of(self.file.path@)->0)
                    } else {
                        Seq::empty()
                    },
                ) + seq![' ', '\u{b7}', ' '] + self.author@
            } else {
                shown_title(
                    self.title@,
                    self.subtitle@,
                    self.volume@,
                    self.number@,
                    self.series@,
                    if self.title@.len() == 0 {
                        stem_of(file_name_of(self.file.path@)->0)
                    } else {
                        Seq::empty()
                    },
                )
            },
    {
        let mut l = self.title();
        if self.author.as_str().unicode_len() > 0 {
            push_str(&mut l, " \u{b7} ");
            push_str(&mut l, self.author.as_str());
            proof {
                reveal_strlit(" \u{b7} ");
            }
        }
        l
    }

    /// The name by which the author is sorted.
    pub fn alphabetic_author(&self) -> (a: &str)
        ensures
            a@ == sorting_author(self.author@),
    {
        let v = chars_of(self.author.as_str());
        let n = v.len();
        let found = find_char(&v, 0, n, ',');
        assert(v@.subrange(0, n as int) =~= v@);
        let end = match found {
            Some(k) => k,
            None => n,
        };
        proof {
            lemma_split_first(v@, ',');
        }
        let ghost first = v@.take(end as int);
        proof {
            lemma_index_of(v@, ',');
            match index_of(v@, ',') {
                Some(k) => {
                    assert(end == k);
                },
                None => {
                    assert(end == n);
                    assert(v@.take(n as int) =~= v@);
                },
            }
        }
        assert(split_char(v@, ',')[0] == first);
        let mut start = end;
        while start > 0 && v[start - 1] != ' '
            invariant
                0 <= start <= end <= n == v@.len(),
                forall|j: int| start <= j < end ==> v@[j] != ' ',
            decreases start,
        {
            start -= 1;
        }
        proof {
            lemma_split_last(first, ' ');
            lemma_last_index_of(first, ' ');
            if start > 0 {
                assert(first[start - 1] == ' ');
                match last_index_of(first, ' ') {
                    Some(q) => {
                        if q < start - 1 {
                            assert(first[start - 1] == ' ');
                        } else if q > start - 1 {
                            assert(first[q] == v@[q]);
                        }
                        assert(q == start - 1);
                        assert(first.skip(q + 1) =~= v@.subrange(start as int, end as int));
                    },
                    None => {
                        assert(false);
                    },
                }
            } else {
                match last_index_of(first, ' ') {
                    Some(q) => {
                        assert(first[q] == v@[q]);
                        assert(false);
                    },
                    None => {
                        assert(first =~= v@.subrange(0, end as int));
                    },
                }
            }
        }
        self.author.as_str().substring_char(start, end)
    }
}

/// Whether `a` at `j` in `s` is followed by `b`.
pub open spec fn pair_at(s: Seq<char>, j: int, a: char, b: char) -> bool {
    s[j] == a && s[j + 1] == b
}

/// The position of the first `a` followed by `b` in `s`.
pub open spec fn index_of_pair(s: Seq<char>, a: char, b: char) -> Option<int>
    decreases s.len(),
{
    if s.len() < 2 {
        None
    } else if s[0] == a && s[1] == b {
        Some(0)
    } else {
        match index_of_pair(s.drop_first(), a, b) {
            Some(i) => Some(i + 1),
            None => None,
        }
    }
}

proof fn lemma_index_of_pair(s: Seq<char>, a: char, b: char)
    ensures
        index_of_pair(s, a, b) matches Some(i) ==> 0 <= i && i + 1 < s.len() && s[i] == a && s[i + 1]
            == b && forall|j: int| 0 <= j < i ==> !#[trigger] pair_at(s, j, a, b),
        index_of_pair(s, a, b) is None ==> forall|j: int|
            0 <= j && j + 1 < s.len() ==> !#[trigger] pair_at(s, j, a, b),
    decreases s.len(),
{
    if s.len() >= 2 && !(s[0] == a && s[1] == b) {
        lemma_index_of_pair(s.drop_first(), a, b);
        assert forall|j: int| 1 <= j && j + 1 < s.len() implies pair_at(s, j, a, b) == pair_at(
            s.drop_first(),
            j - 1,
            a,
            b,
        ) by {}
    }
}

/// `w` without its white space at the end (when `end` is set), then at the start (when
/// `start` is set).
pub open spec fn trims(w: Seq<char>, start: bool, end: bool) -> Seq<char> {
    let w1 = if end {
        trim_end(w)
    } else {
        w
    };
    if start {
        trim_start(w1)
    } else {
        w1
    }
}

/// The position of the first `c` in `s` from `from` on, as a position in `s`.
pub open spec fn find_from(s: Seq<char>, from: int, c: char) -> Option<int> {
    match index_of(s.skip(from), c) {
        Some(i) => Some(from + i),
        None => None,
    }
}

/// What a file name tells of a book, field by field (`None` where it tells nothing): the
/// series in parentheses at the start, the author before `- `, the title before `_` or `-`,
/// the subtitle between `_` and `-`, the publisher before `(` and the year inside the
/// parentheses that follow.
pub struct NameFields {
    pub series: Option<Seq<char>>,
    pub author: Option<Seq<char>>,
    pub title: Option<Seq<char>>,
    pub subtitle: Option<Seq<char>>,
    pub publisher: Option<Seq<char>>,
    pub year: Option<Seq<char>>,
}

/// The series in parentheses at the start of a file name, and where the rest begins.
pub open spec fn series_part(f: Seq<char>) -> (Option<Seq<char>>, int) {
    if f.len() > 0 && f[0] == '(' {
        match find_from(f, 1, ')') {
            Some(k) => (Some(trims(f.subrange(1, k), false, true)), k + 1),
            None => (None, 1),
        }
    } else {
        (None, 0)
    }
}

/// The author before `- ` from `s` on, and where the rest begins.
pub open spec fn author_part(f: Seq<char>, s: int) -> (Option<Seq<char>>, int) {
    match index_of_pair(f.skip(s), '-', ' ') {
        Some(i) => (Some(trims(f.subrange(s, s + i), true, true)), s + i + 1),
        None => (None, s),
    }
}

/// The text before `c` from `s` on, trimmed as `trims` says, and where the rest begins.
pub open spec fn part_before(f: Seq<char>, s: int, c: char, start: bool, end: bool) -> (Option<Seq<char>>, int) {
    match find_from(f, s, c) {
        Some(k) => (Some(trims(f.subrange(s, k), start, end)), k + 1),
        None => (None, s),
    }
}

pub open spec fn name_fields(f: Seq<char>) -> NameFields {
    let (series, s1) = series_part(f);
    let (author, s2) = author_part(f, s1);
    let (title1, s3) = part_before(f, s2, '_', true, false);
    let (piece, s4) = part_before(f, s3, '-', true, false);
    let (title2, subtitle) = if piece is Some && s3 == s2 {
        (piece, None)
    } else {
        (title1, piece)
    };
    let (publisher, s5) = part_before(f, s4, '(', false, true);
    let year = match find_from(f, s5, ')') {
        Some(k) => Some(f.subrange(s5, k)),
        None => None,
    };
    NameFields { series, author, title: title2, subtitle, publisher, year }
}

/// The value that a field takes: what the file name tells, else what it was.
pub open spec fn or_kept(told: Option<Seq<char>>, was: Seq<char>) -> Seq<char> {
    match told {
        Some(v) => v,
        None => was,
    }
}

/// The characters `v[from..to]`, trimmed as `trims` says.
pub(crate) fn trimmed(v: &Vec<char>, from: usize, to: usize, start: bool, end: bool) -> (s: String)
    requires
        from <= to <= v@.len(),
    ensures
        s@ == trims(v@.subrange(from as int, to as int), start, end),
{
    let ghost w = v@.subrange(from as int, to as int);
    let mut e = to;
    if end {
        while e > from && char_is_whitespace(v[e - 1])
            invariant
                from <= e <= to <= v@.len(),
                trim_end(v@.subrange(from as int, e as int)) == trim_end(w),
            decreases e,
        {
            assert(v@.subrange(from as int, e as int).drop_last() =~= v@.subrange(from as int, e - 1));
            e -= 1;
        }
        assert(trim_end(v@.subrange(from as int, e as int)) == v@.subrange(from as int, e as int));
    } else {
        e = to;
    }
    let ghost w1 = v@.subrange(from as int, e as int);
    assert(w1 == if end { trim_end(w) } else { w });
    let mut b = from;
    if start {
        while b < e && char_is_whitespace(v[b])
            invariant
                from <= b <= e <= v@.len(),
                trim_start(v@.subrange(b as int, e as int)) == trim_start(w1),
            decreases e - b,
        {
            assert(v@.subrange(b as int, e as int).drop_first() =~= v@.subrange(b + 1, e as int));
            b += 1;
        }
        assert(trim_start(v@.subrange(b as int, e as int)) == v@.subrange(b as int, e as int));
    }
    string_of(v, b, e)
}

/// The first `c` in `v` from `from` on.
fn find_after(v: &Vec<char>, from: usize, c: char) -> (r: Option<usize>)
    requires
        from <= v@.len(),
    ensures
        r matches Some(k) ==> find_from(v@, from as int, c) == Some(k as int) && from <= k < v@.len(),
        r is None ==> find_from(v@, from as int, c) is None,
{
    let r = find_char(v, from, v.len(), c);
    proof {
        assert(v@.subrange(from as int, v@.len() as int) =~= v@.skip(from as int));
        lemma_index_of(v@.skip(from as int), c);
    }
    r
}

/// The first `-` followed by a space in `v` from `from` on, relative to `from`.
fn find_dash_space(v: &Vec<char>, from: usize) -> (r: Option<usize>)
    requires
        from <= v@.len(),
    ensures
        r matches Some(i) ==> index_of_pair(v@.skip(from as int), '-', ' ') == Some(i as int) && from + i
            + 1 < v@.len(),
        r is None ==> index_of_pair(v@.skip(from as int), '-', ' ') is None,
{
    let ghost w = v@.skip(from as int);
    proof {
        lemma_index_of_pair(w, '-', ' ');
    }
    let n = v.len();
    let mut i = from;
    while i < n && i + 1 < n
        invariant
            from <= i <= v@.len(),
            n == v@.len(),
            w == v@.skip(from as int),
            forall|j: int| from <= j < i && j + 1 < v@.len() ==> !#[trigger] pair_at(v@, j, '-', ' '),
        decreases v@.len() - i,
    {
        if v[i] == '-' && v[i + 1] == ' ' {
            proof {
                lemma_index_of_pair(w, '-', ' ');
                match index_of_pair(w, '-', ' ') {
                    Some(k) => {
                        if k < i - from {
                            assert(pair_at(w, k, '-', ' ') == pair_at(v@, from + k, '-', ' '));
                        } else if k > i - from {
                            assert(pair_at(w, i - from, '-', ' ') == pair_at(v@, i as int, '-', ' '));
                        }
                    },
                    None => {
                        assert(pair_at(w, i - from, '-', ' ') == pair_at(v@, i as int, '-', ' '));
                    },
                }
            }
            return Some(i - from);
        }
        i += 1;
    }
    proof {
        lemma_index_of_pair(w, '-', ' ');
        if let Some(k) = index_of_pair(w, '-', ' ') {
            assert(pair_at(w, k, '-', ' ') == pair_at(v@, from + k, '-', ' '));
        }
    }
    None
}

/// The part of `v` before the first `c` from `from` on, trimmed, and where the rest begins.
fn take_part(v: &Vec<char>, from: usize, c: char, start: bool, end: bool) -> (r: (Option<String>, usize))
    requires
        from <= v@.len(),
    ensures
        (opt_chars(r.0), r.1 as int) == part_before(v@, from as int, c, start, end),
        r.1 <= v@.len(),
{
    let n = v.len();
    let found = find_after(v, from, c);
    match found {
        Some(k) => {
            (Some(trimmed(v, from, k, start, end)), k + 1)
        },
        None => (None, from),
    }
}

/// The series at the start of a file name, and where the rest begins.
fn take_series(v: &Vec<char>) -> (r: (Option<String>, usize))
    ensures
        (opt_chars(r.0), r.1 as int) == series_part(v@),
        r.1 <= v@.len(),
{
    if v.len() > 0 && v[0] == '(' {
        take_part(v, 1, ')', false, true)
    } else {
        (None, 0)
    }
}

/// The author before `- ` from `from` on, and where the rest begins.
fn take_author(v: &Vec<char>, from: usize) -> (r: (Option<String>, usize))
    requires
        from <= v@.len(),
    ensures
        (opt_chars(r.0), r.1 as int) == author_part(v@, from as int),
        r.1 <= v@.len(),
{
    let n = v.len();
    let found = find_dash_space(v, from);
    match found {
        Some(i) => {
            (Some(trimmed(v, from, from + i, true, true)), from + i + 1)
        },
        None => (None, from),
    }
}

/// Sets a field to what the file name tells of it, if it tells anything.
fn set_told(field: &mut String, told: Option<String>)
    ensures
        final(field)@ == or_kept(opt_chars(told), old(field)@),
{
    match told {
        Some(s) => {
            *field = s;
        },
        None => {},
    }
}

/// Fills the fields of a book that has no title from its file name.
pub fn extract_metadata_from_filename(_prefix: &str, info: &mut Info)
    ensures
        old(info).title@.len() > 0 || file_name_of(old(info).file.path@) is None ==> *final(info) == *old(info),
        old(info).title@.len() == 0 && file_name_of(old(info).file.path@) is Some ==> {
            let f = name_fields(file_name_of(old(info).file.path@)->0);
            &&& final(info).series@ == or_kept(f.series, old(info).series@)
            &&& final(info).author@ == or_kept(f.author, old(info).author@)
            &&& final(info).title@ == or_kept(f.title, old(info).title@)
            &&& final(info).subtitle@ == or_kept(f.subtitle, old(info).subtitle@)
            &&& final(info).publisher@ == or_kept(f.publisher, old(info).publisher@)
            &&& final(info).year@ == or_kept(f.year, old(info).year@)
            &&& final(info).language == old(info).language
            &&& final(info).edition == old(info).edition
            &&& final(info).volume == old(info).volume
            &&& final(info).number == old(info).number
            &&& final(info).isbn == old(info).isbn
            &&& final(info).categories == old(info).categories
            &&& final(info).file == old(info).file
            &&& final(info).reader == old(info).reader
            &&& final(info).added == old(info).added
        },
{
    if info.title.as_str().unicode_len() > 0 {
        return;
    }
    let name = match file_name(info.file.path.as_str()) {
        Some(name) => name,
        None => {
            return;
        },
    };
    let v = chars_of(name.as_str());
    let (series, s1) = take_series(&v);
    let (author, s2) = take_author(&v, s1);
    let (title1, s3) = take_part(&v, s2, '_', true, false);
    let (piece, s4) = take_part(&v, s3, '-', true, false);
    let (title, subtitle) = if piece.is_some() && s3 == s2 {
        (piece, None)
    } else {
        (title1, piece)
    };
    let (publisher, s5) = take_part(&v, s4, '(', false, true);
    let year = match find_after(&v, s5, ')') {
        Some(k) => Some(string_of(&v, s5, k)),
        None => None,
    };
    set_told(&mut info.series, series);
    set_told(&mut info.author, author);
    set_told(&mut info.title, title);
    set_told(&mut info.subtitle, subtitle);
    set_told(&mut info.publisher, publisher);
    set_told(&mut info.year, year);
}

/// `s` with each `..` made `.`, from left to right.
pub open spec fn single_dots(s: Seq<char>) -> Seq<char>
    decreases s.len(),
{
    if s.len() >= 2 && s[0] == '.' && s[1] == '.' {
        seq!['.'] + single_dots(s.skip(2))
    } else if s.len() == 0 {
        Seq::empty()
    } else {
        seq![s[0]] + single_dots(s.drop_first())
    }
}

/// What a character of a file name becomes: a slash a space; `?`, `!` and `:` nothing.
pub open spec fn name_char(c: char) -> Seq<char> {
    if c == '/' {
        seq![' ']
    } else if c == '?' || c == '!' || c == ':' {
        Seq::empty()
    } else {
        seq![c]
    }
}

/// The characters of `s`, each as `name_char` makes it.
pub open spec fn name_chars(s: Seq<char>) -> Seq<char>
    decreases s.len(),
{
    if s.len() == 0 {
        Seq::empty()
    } else {
        name_chars(s.drop_last()) + name_char(s.last())
    }
}

/// A text made friendlier to ASCII, as `asciify` does.
pub open spec fn asciified(s: Seq<char>) -> Seq<char> {
    ascii_pieces(nfkd(s))
}

/// The name of a book's file before it is cleaned: the title, the subtitle, the volume, the
/// number when there is no series and the author, those that are there, joined by ` - `, then
/// a dot and the kind of the file.
pub open spec fn raw_file_name(info: Info) -> Seq<char> {
    let sep = seq![' ', '-', ' '];
    let b1 = asciified(info.title@);
    let b2 = if info.subtitle@.len() > 0 {
        b1 + sep + asciified(info.subtitle@)
    } else {
        b1
    };
    let b3 = if info.volume@.len() > 0 {
        b2 + sep + info.volume@
    } else {
        b2
    };
    let b4 = if info.number@.len() > 0 && info.series@.len() == 0 {
        b3 + sep + info.number@
    } else {
        b3
    };
    let b5 = if info.author@.len() > 0 {
        b4 + sep + asciified(info.author@)
    } else {
        b4
    };
    b5 + seq!['.'] + info.file.kind@
}

/// The file name that a book's information gives: nothing without a title, else the raw name
/// with single dots and without the characters that paths and some file systems refuse.
pub open spec fn info_file_name(info: Info) -> Seq<char> {
    if info.title@.len() == 0 {
        Seq::empty()
    } else {
        name_chars(single_dots(raw_file_name(info)))
    }
}

/// A character that the file names made from a book's information leave out.
pub open spec fn refused_in_names(c: char) -> bool {
    c == '/' || c == '?' || c == '!' || c == ':'
}

proof fn lemma_name_chars_clean(s: Seq<char>)
    ensures
        forall|i: int| 0 <= i < name_chars(s).len() ==> !refused_in_names(#[trigger] name_chars(s)[i]),
    decreases s.len(),
{
    if s.len() > 0 {
        lemma_name_chars_clean(s.drop_last());
        let a = name_chars(s.drop_last());
        let b = name_char(s.last());
        assert forall|i: int| 0 <= i < name_chars(s).len() implies !refused_in_names(#[trigger] name_chars(s)[i]) by {
            if i < a.len() {
                assert(name_chars(s)[i] == a[i]);
            } else {
                assert(name_chars(s)[i] == b[i - a.len()]);
            }
        }
    }
}

/// A file name made from a book's information holds no slash, question or exclamation mark,
/// nor colon.
pub proof fn lemma_file_name_clean(info: Info)
    ensures
        forall|i: int| 0 <= i < info_file_name(info).len() ==> !refused_in_names(#[trigger] info_file_name(info)[i]),
{
    if info.title@.len() > 0 {
        lemma_name_chars_clean(single_dots(raw_file_name(info)));
    }
}

/// The file name that a book's information gives.
pub fn file_name_from_info(info: &Info) -> (r: String)
    ensures
        r@ == info_file_name(*info),
{
    if info.title.as_str().unicode_len() == 0 {
        return String::new();
    }
    let mut base = asciify(info.title.as_str());
    if info.subtitle.as_str().unicode_len() > 0 {
        push_str(&mut base, " - ");
        let s = asciify(info.subtitle.as_str());
        push_str(&mut base, s.as_str());
    }
    if info.volume.as_str().unicode_len() > 0 {
        push_str(&mut base, " - ");
        push_str(&mut base, info.volume.as_str());
    }
    if info.number.as_str().unicode_len() > 0 && info.series.as_str().unicode_len() == 0 {
        push_str(&mut base, " - ");
        push_str(&mut base, info.number.as_str());
    }
    if info.author.as_str().unicode_len() > 0 {
        push_str(&mut base, " - ");
        let a = asciify(info.author.as_str());
        push_str(&mut base, a.as_str());
    }
    push_str(&mut base, ".");
    push_str(&mut base, info.file.kind.as_str());
    proof {
        reveal_strlit(" - ");
        reveal_strlit(".");
        assert(" - "@ =~= seq![' ', '-', ' ']);
        assert("."@ =~= seq!['.']);
    }
    assert(base@ =~= raw_file_name(*info));
    let v = chars_of(base.as_str());
    let n = v.len();
    let mut w: Vec<char> = Vec::new();
    let mut i: usize = 0;
    assert(w@ + single_dots(v@.skip(0)) =~= single_dots(v@)) by {
        assert(v@.skip(0) =~= v@);
    }
    while i < n
        invariant
            0 <= i <= n == v@.len(),
            w@ + single_dots(v@.skip(i as int)) == single_dots(v@),
        decreases n - i,
    {
        let ghost rest = v@.skip(i as int);
        if i + 1 < n && v[i] == '.' && v[i + 1] == '.' {
            assert(rest.skip(2) =~= v@.skip(i + 2));
            w.push('.');
            i += 2;
        } else {
            assert(rest.drop_first() =~= v@.skip(i + 1));
            w.push(v[i]);
            i += 1;
        }
        assert(w@ + single_dots(v@.skip(i as int)) =~= single_dots(v@));
    }
    assert(v@.skip(n as int) =~= Seq::<char>::empty());
    assert(w@ =~= single_dots(v@));
    let mut r = String::new();
    let mut j: usize = 0;
    while j < w.len()
        invariant
            0 <= j <= w@.len(),
            r@ == name_chars(w@.take(j as int)),
        decreases w@.len() - j,
    {
        let c = w[j];
        assert(w@.take(j + 1).drop_last() =~= w@.take(j as int));
        if c == '/' {
            push_one(&mut r, ' ');
        } else if c == '?' || c == '!' || c == ':' {
        } else {
            push_one(&mut r, c);
        }
        assert(r@ =~= name_chars(w@.take(j + 1)));
        j += 1;
    }
    assert(w@.take(w@.len() as int) =~= w@);
    r
}

/// A name for what `titlecase::titlecase` returns: English text in title case, after the
/// rules of John Gruber (small words in lower case but first and last, words with inner
/// capitals, paths and addresses left alone).
pub uninterp spec fn title_case(s: Seq<char>) -> Seq<char>;

/// `titlecase::titlecase`. Claimed of it: the result is the name applied to the text.
#[verifier::external_body]
fn titlecase_of(s: &str) -> (r: String)
    ensures
        r@ == title_case(s@),
{
    titlecase::titlecase(s)
}

/// `s` with its apostrophes made typographic.
pub open spec fn curly_apostrophes(s: Seq<char>) -> Seq<char> {
    s.map_values(|c: char| if c == '\'' { '\u{2019}' } else { c })
}

/// Whether a language tag is English: empty or starting with `en`.
pub open spec fn english(language: Seq<char>) -> bool {
    language.len() == 0 || (language.len() >= 2 && language[0] == 'e' && language[1] == 'n')
}

/// The title and the subtitle, a title with a colon split at it when there is no subtitle.
pub open spec fn split_title(title: Seq<char>, subtitle: Seq<char>) -> (Seq<char>, Seq<char>) {
    if subtitle.len() == 0 {
        match index_of(title, ':') {
            Some(k) => (trim_end(title.take(k)), trim_start(title.skip(k + 1))),
            None => (title, subtitle),
        }
    } else {
        (title, subtitle)
    }
}

/// The text with its apostrophes made typographic.
fn curl_apostrophes(s: &str) -> (r: String)
    ensures
        r@ == curly_apostrophes(s@),
{
    let v = chars_of(s);
    let mut r = String::new();
    let mut i: usize = 0;
    while i < v.len()
        invariant
            0 <= i <= v@.len(),
            r@ == curly_apostrophes(v@.take(i as int)),
            v@ == s@,
        decreases v@.len() - i,
    {
        if v[i] == '\'' {
            push_one(&mut r, '\u{2019}');
        } else {
            push_one(&mut r, v[i]);
        }
        assert(r@ =~= curly_apostrophes(v@.take(i + 1)));
        i += 1;
    }
    assert(v@.take(v@.len() as int) =~= v@);
    r
}

/// Whether a string starts with `en`.
fn starts_with_en(s: &str) -> (b: bool)
    ensures
        b == (s@.len() >= 2 && s@[0] == 'e' && s@[1] == 'n'),
{
    let v = chars_of(s);
    v.len() >= 2 && v[0] == 'e' && v[1] == 'n'
}

/// Puts the fields of a book in their final form: a title with a colon split into title and
/// subtitle when there is no subtitle, English titles in title case, typographic apostrophes
/// and a year of four bytes at most.
pub fn consolidate(_prefix: &str, info: &mut Info)
    requires
        encode_utf8(old(info).year@).len() <= usize::MAX,
        encode_utf8(old(info).year@).len() > 4 ==> is_char_boundary(encode_utf8(old(info).year@), 4),
    ensures
        ({
            let (t, s) = split_title(old(info).title@, old(info).subtitle@);
            let (t2, s2) = if english(old(info).language@) {
                (title_case(t), title_case(s))
            } else {
                (t, s)
            };
            &&& final(info).title@ == curly_apostrophes(t2)
            &&& final(info).subtitle@ == curly_apostrophes(s2)
        }),
        final(info).author@ == curly_apostrophes(old(info).author@),
        final(info).series@ == curly_apostrophes(old(info).series@),
        final(info).publisher@ == curly_apostrophes(old(info).publisher@),
        encode_utf8(old(info).year@).len() > 4 ==> encode_utf8(final(info).year@) == encode_utf8(
            old(info).year@,
        ).take(4),
        encode_utf8(old(info).year@).len() <= 4 ==> final(info).year == old(info).year,
        final(info).language == old(info).language,
        final(info).edition == old(info).edition,
        final(info).volume == old(info).volume,
        final(info).number == old(info).number,
        final(info).isbn == old(info).isbn,
        final(info).categories == old(info).categories,
        final(info).file == old(info).file,
        final(info).reader == old(info).reader,
        final(info).added == old(info).added,
{
    if info.subtitle.as_str().unicode_len() == 0 {
        let v = chars_of(info.title.as_str());
        let n = v.len();
        let found = find_char(&v, 0, n, ':');
        proof {
            assert(v@.subrange(0, n as int) =~= v@);
            lemma_index_of(v@, ':');
        }
        match found {
            Some(k) => {
                let t = trimmed(&v, 0, k, false, true);
                let s = trimmed(&v, k + 1, n, true, false);
                proof {
                    assert(v@.subrange(0, k as int) =~= v@.take(k as int));
                    assert(v@.subrange(k + 1, n as int) =~= v@.skip(k + 1));
                }
                info.title = t;
                info.subtitle = s;
            },
            None => {},
        }
    }
    let lang = info.language.as_str();
    if lang.unicode_len() == 0 || starts_with_en(lang) {
        info.title = titlecase_of(info.title.as_str());
        info.subtitle = titlecase_of(info.subtitle.as_str());
    }
    info.title = curl_apostrophes(info.title.as_str());
    info.subtitle = curl_apostrophes(info.subtitle.as_str());
    info.author = curl_apostrophes(info.author.as_str());
    let ghost year = info.year@;
    let ys = info.year.as_str();
    if ys.len() > 4 {
        let (head, _) = ys.split_at(4);
        proof {
            assert(head.spec_bytes() == encode_utf8(head@));
            assert(ys.spec_bytes() == encode_utf8(year));
            assert(encode_utf8(head@) =~= encode_utf8(year).take(4));
        }
        info.year = to_string(head);
    }
    info.series = curl_apostrophes(info.series.as_str());
    info.publisher = curl_apostrophes(info.publisher.as_str());
}

/// Whether `title` starts with the word `w` followed by a white space character.
pub open spec fn word_then_space(title: Seq<char>, w: Seq<char>) -> bool {
    title.len() > w.len() && title.take(w.len() as int) == w && is_whitespace(title[w.len() as int])
}

/// Whether a language tag is French: it starts with `fr`.
pub open spec fn french(language: Seq<char>) -> bool {
    language.len() >= 2 && language[0] == 'f' && language[1] == 'r'
}

/// How many characters the article that starts a title takes, with the white space after it:
/// `The`, `An` or `A` for a book in English, `Les`, `Le`, `La`, `L’`, `Une`, `Un`, `Des`,
/// `De` or `Du` for one in French (`L’` without white space); none otherwise.
pub open spec fn article_len(language: Seq<char>, title: Seq<char>) -> int {
    if english(language) {
        if word_then_space(title, seq!['T', 'h', 'e']) {
            4
        } else if word_then_space(title, seq!['A', 'n']) {
            3
        } else if word_then_space(title, seq!['A']) {
            2
        } else {
            0
        }
    } else if french(language) {
        if word_then_space(title, seq!['L', 'e', 's']) {
            4
        } else if word_then_space(title, seq!['L', 'e']) {
            3
        } else if word_then_space(title, seq!['L', 'a']) {
            3
        } else if title.len() >= 2 && title.take(2) == seq!['L', '\u{2019}'] {
            2
        } else if word_then_space(title, seq!['U', 'n', 'e']) {
            4
        } else if word_then_space(title, seq!['U', 'n']) {
            3
        } else if word_then_space(title, seq!['D', 'e', 's']) {
            4
        } else if word_then_space(title, seq!['D', 'e']) {
            3
        } else if word_then_space(title, seq!['D', 'u']) {
            3
        } else {
            0
        }
    } else {
        0
    }
}

/// Whether `v` starts with the characters of `w`.
fn starts_with_chars(v: &Vec<char>, w: &Vec<char>) -> (b: bool)
    ensures
        b == (v@.len() >= w@.len() && v@.take(w@.len() as int) == w@),
{
    if v.len() < w.len() {
        return false;
    }
    let mut i: usize = 0;
    while i < w.len()
        invariant
            0 <= i <= w@.len() <= v@.len(),
            v@.take(i as int) == w@.take(i as int),
        decreases w@.len() - i,
    {
        if v[i] != w[i] {
            assert(v@.take(w@.len() as int)[i as int] != w@[i as int]);
            return false;
        }
        assert(v@.take(i + 1) =~= v@.take(i as int).push(v@[i as int]));
        assert(w@.take(i + 1) =~= w@.take(i as int).push(w@[i as int]));
        i += 1;
    }
    assert(w@.take(w@.len() as int) =~= w@);
    true
}

/// Whether `v` starts with the word `w` followed by a white space character.
fn starts_with_word(v: &Vec<char>, w: &str) -> (b: bool)
    ensures
        b == word_then_space(v@, w@),
{
    let wv = chars_of(w);
    starts_with_chars(v, &wv) && v.len() > wv.len() && char_is_whitespace(v[wv.len()])
}

impl Info {
    /// The title without the article that starts it, by which the book is sorted.
    pub fn alphabetic_title(&self) -> (t: &str)
        ensures
            t@ == self.title@.skip(article_len(self.language@, self.title@)),
    {
        let v = chars_of(self.title.as_str());
        let lang = chars_of(self.language.as_str());
        proof {
            reveal_strlit("The");
            reveal_strlit("An");
            reveal_strlit("A");
            reveal_strlit("Les");
            reveal_strlit("Le");
            reveal_strlit("La");
            reveal_strlit("L\u{2019}");
            reveal_strlit("Une");
            reveal_strlit("Un");
            reveal_strlit("Des");
            reveal_strlit("De");
            reveal_strlit("Du");
            assert("The"@ =~= seq!['T', 'h', 'e']);
            assert("An"@ =~= seq!['A', 'n']);
            assert("A"@ =~= seq!['A']);
            assert("Les"@ =~= seq!['L', 'e', 's']);
            assert("Le"@ =~= seq!['L', 'e']);
            assert("La"@ =~= seq!['L', 'a']);
            assert("L\u{2019}"@ =~= seq!['L', '\u{2019}']);
            assert("Une"@ =~= seq!['U', 'n', 'e']);
            assert("Un"@ =~= seq!['U', 'n']);
            assert("Des"@ =~= seq!['D', 'e', 's']);
            assert("De"@ =~= seq!['D', 'e']);
            assert("Du"@ =~= seq!['D', 'u']);
        }
        let en = lang.len() == 0 || (lang.len() >= 2 && lang[0] == 'e' && lang[1] == 'n');
        let fr = lang.len() >= 2 && lang[0] == 'f' && lang[1] == 'r';
        let start: usize = if en {
            if starts_with_word(&v, "The") {
                4
            } else if starts_with_word(&v, "An") {
                3
            } else if starts_with_word(&v, "A") {
                2
            } else {
                0
            }
        } else if fr {
            let apostrophe = chars_of("L\u{2019}");
            if starts_with_word(&v, "Les") {
                4
            } else if starts_with_word(&v, "Le") {
                3
            } else if starts_with_word(&v, "La") {
                3
            } else if starts_with_chars(&v, &apostrophe) {
                2
            } else if starts_with_word(&v, "Une") {
                4
            } else if starts_with_word(&v, "Un") {
                3
            } else if starts_with_word(&v, "Des") {
                4
            } else if starts_with_word(&v, "De") {
                3
            } else if starts_with_word(&v, "Du") {
                3
            } else {
                0
            }
        } else {
            0
        };
        self.title.as_str().substring_char(start, v.len())
    }
}

#[verifier::external_type_specification]
#[verifier::external_body]
pub struct ExRegex(regex::Regex);

/// A search of the library: the pattern that the searched text gives, and its compiled
/// regular expression.
pub struct Query {
    pattern: String,
    regex: regex::Regex,
}

impl Query {
    /// The pattern of the search.
    pub closed spec fn pattern_of(self) -> Seq<char> {
        self.pattern@
    }

    /// The pattern of the search.
    pub fn pattern(&self) -> (p: &str)
        ensures
            p@ == self.pattern_of(),
    {
        self.pattern.as_str()
    }
}

/// A name for whether `regex::Regex::new` accepts a pattern: its syntax is right and what it
/// compiles to stays within the default size limits.
pub uninterp spec fn regex_accepts(pattern: Seq<char>) -> bool;

/// `regex::Regex::new`, its error dropped. Claimed of it: it gives a regular expression exactly
/// when the name holds of the pattern.
#[verifier::external_body]
fn compile_regex(pattern: &str) -> (r: Option<regex::Regex>)
    ensures
        r is Some <==> regex_accepts(pattern@),
{
    regex::Regex::new(pattern).ok()
}

/// A name for whether some part of a text matches a pattern, by the rules of `regex`.
pub uninterp spec fn regex_finds(pattern: Seq<char>, text: Seq<char>) -> bool;

/// `regex::Regex::is_match` with the regular expression of a query. Claimed of it: the result
/// is the name applied to the query's pattern and the text. That rests on the regular
/// expression being compiled from that pattern, which `make_query`, the only maker of a
/// `Query`, sees to.
#[verifier::external_body]
fn query_finds(q: &Query, text: &str) -> (b: bool)
    ensures
        b == regex_finds(q.pattern_of(), text@),
{
    q.regex.is_match(text)
}

/// `s` with each `c` replaced by `r`.
pub open spec fn replace_char(s: Seq<char>, c: char, r: Seq<char>) -> Seq<char>
    decreases s.len(),
{
    if s.len() == 0 {
        Seq::empty()
    } else {
        replace_char(s.drop_last(), c, r) + if s.last() == c {
            r
        } else {
            seq![s.last()]
        }
    }
}

/// `s` with each `a` followed by `b` replaced by `r`, from left to right.
pub open spec fn replace_pair(s: Seq<char>, a: char, b: char, r: Seq<char>) -> Seq<char>
    decreases s.len(),
{
    if s.len() >= 2 && s[0] == a && s[1] == b {
        r + replace_pair(s.skip(2), a, b, r)
    } else if s.len() == 0 {
        Seq::empty()
    } else {
        seq![s[0]] + replace_pair(s.drop_first(), a, b, r)
    }
}

/// Whether a searched text asks for nothing: it is dots only (or nothing), or one white space
/// character.
pub open spec fn asks_nothing(text: Seq<char>) -> bool {
    (forall|i: int| 0 <= i < text.len() ==> text[i] == '.') || (text.len() == 1 && is_whitespace(
        text[0],
    ))
}

/// The pattern that a searched text gives: case ignored, each vowel and `c` standing for its
/// accented forms, `ae` and `oe` for their ligatures too.
pub open spec fn query_pattern(text: Seq<char>) -> Seq<char> {
    let t1 = replace_char(text, 'a', "[a\u{e1}\u{e0}\u{e2}\u{e4}]"@);
    let t2 = replace_char(t1, 'e', "[e\u{e9}\u{e8}\u{ea}\u{eb}]"@);
    let t3 = replace_char(t2, 'i', "[i\u{ed}\u{ec}\u{ee}\u{ef}]"@);
    let t4 = replace_char(t3, 'o', "[o\u{f3}\u{f2}\u{f4}\u{f6}]"@);
    let t5 = replace_char(t4, 'u', "[u\u{fa}\u{f9}\u{fb}\u{fc}]"@);
    let t6 = replace_char(t5, 'c', "[c\u{e7}]"@);
    let t7 = replace_pair(t6, 'a', 'e', "(ae|\u{e6})"@);
    let t8 = replace_pair(t7, 'o', 'e', "(oe|\u{153})"@);
    "(?i)"@ + t8
}

/// Whether a book's information matches a search pattern: its title, subtitle, author or
/// series, one of its categories, or the path of its file.
pub open spec fn info_found(pattern: Seq<char>, info: Info) -> bool {
    ||| regex_finds(pattern, info.title@)
    ||| regex_finds(pattern, info.subtitle@)
    ||| regex_finds(pattern, info.author@)
    ||| regex_finds(pattern, info.series@)
    ||| exists|i: int| 0 <= i < info.categories@.len() && regex_finds(pattern, #[trigger] info.categories@[i]@)
    ||| regex_finds(pattern, info.file.path@)
}

/// `s` with each `c` replaced by `r`.
fn replace_char_str(s: &str, c: char, r: &str) -> (t: String)
    ensures
        t@ == replace_char(s@, c, r@),
{
    let v = chars_of(s);
    let mut t = String::new();
    let mut i: usize = 0;
    while i < v.len()
        invariant
            0 <= i <= v@.len(),
            v@ == s@,
            t@ == replace_char(v@.take(i as int), c, r@),
        decreases v@.len() - i,
    {
        assert(v@.take(i + 1).drop_last() =~= v@.take(i as int));
        if v[i] == c {
            push_str(&mut t, r);
        } else {
            push_one(&mut t, v[i]);
        }
        assert(t@ =~= replace_char(v@.take(i + 1), c, r@));
        i += 1;
    }
    assert(v@.take(v@.len() as int) =~= v@);
    t
}

/// `s` with each `a` followed by `b` replaced by `r`, from left to right.
fn replace_pair_str(s: &str, a: char, b: char, r: &str) -> (t: String)
    ensures
        t@ == replace_pair(s@, a, b, r@),
{
    let v = chars_of(s);
    let n = v.len();
    let mut t = String::new();
    let mut i: usize = 0;
    assert(v@.skip(0) =~= v@);
    while i < n
        invariant
            0 <= i <= n == v@.len(),
            v@ == s@,
            t@ + replace_pair(v@.skip(i as int), a, b, r@) == replace_pair(v@, a, b, r@),
        decreases n - i,
    {
        let ghost rest = v@.skip(i as int);
        let ghost before = t@;
        if i + 1 < n && v[i] == a && v[i + 1] == b {
            assert(rest.skip(2) =~= v@.skip(i + 2));
            push_str(&mut t, r);
            i += 2;
        } else {
            assert(rest.drop_first() =~= v@.skip(i + 1));
            push_one(&mut t, v[i]);
            i += 1;
        }
        assert(t@ + replace_pair(v@.skip(i as int), a, b, r@) =~= before + replace_pair(rest, a, b, r@));
    }
    assert(v@.skip(n as int) =~= Seq::<char>::empty());
    assert(t@ =~= replace_pair(v@, a, b, r@));
    t
}

/// Whether a searched text asks for nothing.
fn is_empty_query(text: &str) -> (b: bool)
    ensures
        b == asks_nothing(text@),
{
    let v = chars_of(text);
    if v.len() == 1 && char_is_whitespace(v[0]) {
        return true;
    }
    let mut i: usize = 0;
    while i < v.len()
        invariant
            0 <= i <= v@.len(),
            v@ == text@,
            !(v@.len() == 1 && is_whitespace(v@[0])),
            forall|j: int| 0 <= j < i ==> v@[j] == '.',
        decreases v@.len() - i,
    {
        if v[i] != '.' {
            assert(text@[i as int] != '.');
            return false;
        }
        i += 1;
    }
    true
}

/// The search that a text asks for: none when it asks for nothing or its pattern is not
/// accepted.
pub fn make_query(text: &str) -> (r: Option<Query>)
    ensures
        asks_nothing(text@) ==> r is None,
        !asks_nothing(text@) ==> (r is Some <==> regex_accepts(query_pattern(text@))),
        r matches Some(q) ==> q.pattern_of() == query_pattern(text@),
{
    if is_empty_query(text) {
        return None;
    }
    let t1 = replace_char_str(text, 'a', "[a\u{e1}\u{e0}\u{e2}\u{e4}]");
    let t2 = replace_char_str(t1.as_str(), 'e', "[e\u{e9}\u{e8}\u{ea}\u{eb}]");
    let t3 = replace_char_str(t2.as_str(), 'i', "[i\u{ed}\u{ec}\u{ee}\u{ef}]");
    let t4 = replace_char_str(t3.as_str(), 'o', "[o\u{f3}\u{f2}\u{f4}\u{f6}]");
    let t5 = replace_char_str(t4.as_str(), 'u', "[u\u{fa}\u{f9}\u{fb}\u{fc}]");
    let t6 = replace_char_str(t5.as_str(), 'c', "[c\u{e7}]");
    let t7 = replace_pair_str(t6.as_str(), 'a', 'e', "(ae|\u{e6})");
    let t8 = replace_pair_str(t7.as_str(), 'o', 'e', "(oe|\u{153})");
    let mut pattern = to_string("(?i)");
    push_str(&mut pattern, t8.as_str());
    match compile_regex(pattern.as_str()) {
        Some(regex) => Some(Query { pattern, regex }),
        None => None,
    }
}

impl Info {
    /// Whether the book matches a search; every book matches no search.
    pub fn is_match(&self, query: &Option<Query>) -> (b: bool)
        ensures
            b == match query {
                Some(q) => info_found(q.pattern_of(), *self),
                None => true,
            },
    {
        match query {
            Some(q) => {
                if query_finds(q, self.title.as_str()) || query_finds(q, self.subtitle.as_str())
                    || query_finds(q, self.author.as_str()) || query_finds(q, self.series.as_str()) {
                    return true;
                }
                let mut i: usize = 0;
                while i < self.categories.len()
                    invariant
                        0 <= i <= self.categories@.len(),
                        *query == Some(*q),
                        forall|j: int| 0 <= j < i ==> !regex_finds(q.pattern_of(), #[trigger] self.categories@[j]@),
                    decreases self.categories@.len() - i,
                {
                    if query_finds(q, self.categories[i].as_str()) {
                        assert(regex_finds(q.pattern_of(), self.categories@[i as int]@));
                        return true;
                    }
                    i += 1;
                }
                query_finds(q, self.file.path.as_str())
            },
            None => true,
        }
    }
}

} // verus!
