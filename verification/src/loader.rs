//! Building a [`Book`] from a parsed [`Summary`] and the contents of the
//! chapter files it names.
//!
//! Reading the files is the caller's business: [`chapter_locations`] lists,
//! in loading order, every location the summary refers to, the caller reads
//! each one (or reports that it could not), and
//! [`load_book_from_contents`] assembles the book, stripping a leading
//! byte-order mark and turning missing or unreadable files into the errors
//! the build reports.

use vstd::prelude::*;

use crate::book::{
    book_views, lemma_seq_book_views, strs_view, Book, BookItem, BookItemView, Chapter,
    ChapterView,
};
use crate::section_number::SectionNumber;
use crate::summary::{
    item_view, items_views, lemma_seq_items_views, link_view, opt_num_view, opt_str_view,
    LinkView, Summary, SummaryItem, SummaryItemView, SummaryView,
};
use crate::text::{bracket_escape, spec_bracket_escape};
use vstd::string::{StrSliceExecFns, StringExecFns};

verus! {

broadcast use
    vstd::seq::axiom_seq_index_decreases,
    vstd::seq::axiom_seq_subrange_decreases,
    vstd::std_specs::vec::axiom_vec_decreases_to_view;

/// What reading one chapter file produced: its text, or the failure kind.
#[derive(Debug, PartialEq)]
pub enum FileOutcome {
    /// The file was read; its text follows.
    Content(String),
    /// The file could not be opened.
    NotFound,
    /// The file was opened but could not be read as text.
    Unreadable,
}

/// Mathematical image of a [`FileOutcome`].
pub enum FileOutcomeView {
    Content(Seq<char>),
    NotFound,
    Unreadable,
}

impl View for FileOutcome {
    type V = FileOutcomeView;

    open spec fn view(&self) -> FileOutcomeView {
        match self {
            FileOutcome::Content(s) => FileOutcomeView::Content(s@),
            FileOutcome::NotFound => FileOutcomeView::NotFound,
            FileOutcome::Unreadable => FileOutcomeView::Unreadable,
        }
    }
}

/// The views of the file outcomes.
pub open spec fn file_views(s: Seq<FileOutcome>) -> Seq<FileOutcomeView> {
    s.map_values(|f: FileOutcome| f@)
}

/// Why a book could not be loaded.
#[derive(Debug, PartialEq)]
pub enum LoadError {
    /// The chapter file at `location` does not exist.
    ChapterNotFound { location: String },
    /// The chapter file exists but could not be read as text.
    ChapterUnreadable { name: String, location: String },
    /// Fewer file contents were supplied than the summary names.
    MissingContent,
}

/// Mathematical image of a [`LoadError`].
pub enum LoadErrorView {
    ChapterNotFound { location: Seq<char> },
    ChapterUnreadable { name: Seq<char>, location: Seq<char> },
    MissingContent,
}

impl View for LoadError {
    type V = LoadErrorView;

    open spec fn view(&self) -> LoadErrorView {
        match self {
            LoadError::ChapterNotFound { location } => LoadErrorView::ChapterNotFound {
                location: location@,
            },
            LoadError::ChapterUnreadable { name, location } => LoadErrorView::ChapterUnreadable {
                name: name@,
                location: location@,
            },
            LoadError::MissingContent => LoadErrorView::MissingContent,
        }
    }
}

// ---------------------------------------------------------------------------
// Locations
// ---------------------------------------------------------------------------

/// The file locations a forest of summary items refers to, in loading
/// order: each link's own location (skipped for drafts) before those of its
/// nested items.
pub open spec fn spec_locations(items: Seq<SummaryItemView>) -> Seq<Seq<char>>
    decreases items, 0int,
{
    if items.len() == 0 {
        Seq::empty()
    } else {
        spec_item_locations(items[0]) + spec_locations(items.drop_first())
    }
}

/// [`spec_locations`] of one item.
pub open spec fn spec_item_locations(i: SummaryItemView) -> Seq<Seq<char>>
    decreases i, 1int,
{
    match i {
        SummaryItemView::Link(l) => (match l.location {
            Option::Some(loc) => seq![loc],
            Option::None => Seq::empty(),
        }) + spec_locations(l.nested),
        _ => Seq::empty(),
    }
}

/// The locations of a whole summary, prefix, numbered and suffix chapters
/// in that order.
pub open spec fn spec_summary_locations(s: SummaryView) -> Seq<Seq<char>> {
    spec_locations(s.prefix_chapters) + spec_locations(s.numbered_chapters) + spec_locations(
        s.suffix_chapters,
    )
}

fn locations_from(items: &Vec<SummaryItem>, k: usize) -> (r: Vec<String>)
    requires
        k <= items@.len(),
    ensures
        strs_view(r@) == spec_locations(items_views(items@).skip(k as int)),
    decreases *items, items@.len() - k, 0int,
{
    if k >= items.len() {
        proof {
            assert(items_views(items@).skip(k as int) =~= Seq::<SummaryItemView>::empty());
            assert(strs_view(Seq::<String>::empty()) =~= Seq::<Seq<char>>::empty());
        }
        Vec::new()
    } else {
        proof {
            assert(decreases_to!(*items => items@));
            assert(decreases_to!(items@ => items@[k as int]));
        }
        let mut out = item_locations(&items[k]);
        let mut rest = locations_from(items, k + 1);
        out.append(&mut rest);
        proof {
            let s = items_views(items@).skip(k as int);
            assert(s[0] == item_view(items@[k as int]));
            assert(s.drop_first() =~= items_views(items@).skip(k + 1));
            assert(strs_view(out@) =~= spec_locations(s));
        }
        out
    }
}

fn item_locations(item: &SummaryItem) -> (r: Vec<String>)
    ensures
        strs_view(r@) == spec_item_locations(item_view(*item)),
    decreases *item, 0int, 1int,
{
    match item {
        SummaryItem::Link(l) => {
            let mut out: Vec<String> = Vec::new();
            if let Some(loc) = &l.location {
                out.push(loc.clone());
            }
            proof {
                assert(items_views(l.nested_items@).skip(0) =~= items_views(l.nested_items@));
            }
            let mut rest = locations_from(&l.nested_items, 0);
            out.append(&mut rest);
            proof {
                lemma_seq_items_views(l.nested_items@);
                assert(strs_view(out@) =~= spec_item_locations(item_view(*item)));
            }
            out
        },
        _ => {
            proof {
                assert(strs_view(Seq::<String>::empty()) =~= Seq::<Seq<char>>::empty());
                assert(spec_item_locations(item_view(*item)) =~= Seq::<Seq<char>>::empty());
            }
            Vec::new()
        },
    }
}

/// Every chapter-file location the summary names, in the order the loader
/// consumes their contents: prefix, numbered, then suffix chapters, each
/// link before its nested items, drafts skipped.
pub fn chapter_locations(summary: &Summary) -> (r: Vec<String>)
    ensures
        strs_view(r@) == spec_summary_locations(summary@),
{
    proof {
        assert(items_views(summary.prefix_chapters@).skip(0) =~= items_views(
            summary.prefix_chapters@,
        ));
        assert(items_views(summary.numbered_chapters@).skip(0) =~= items_views(
            summary.numbered_chapters@,
        ));
        assert(items_views(summary.suffix_chapters@).skip(0) =~= items_views(
            summary.suffix_chapters@,
        ));
    }
    let mut out = locations_from(&summary.prefix_chapters, 0);
    let mut b = locations_from(&summary.numbered_chapters, 0);
    let mut c = locations_from(&summary.suffix_chapters, 0);
    out.append(&mut b);
    out.append(&mut c);
    proof {
        assert(strs_view(out@) =~= spec_summary_locations(summary@));
    }
    out
}

/// The (location, chapter name) pairs a forest of summary items refers to,
/// in loading order, drafts skipped: what seeding a missing chapter file
/// needs to know.
pub open spec fn spec_location_names(items: Seq<SummaryItemView>) -> Seq<(Seq<char>, Seq<char>)>
    decreases items, 0int,
{
    if items.len() == 0 {
        Seq::empty()
    } else {
        spec_item_location_names(items[0]) + spec_location_names(items.drop_first())
    }
}

/// [`spec_location_names`] of one item.
pub open spec fn spec_item_location_names(i: SummaryItemView) -> Seq<(Seq<char>, Seq<char>)>
    decreases i, 1int,
{
    match i {
        SummaryItemView::Link(l) => (match l.location {
            Option::Some(loc) => seq![(loc, l.name)],
            Option::None => Seq::empty(),
        }) + spec_location_names(l.nested),
        _ => Seq::empty(),
    }
}

/// The (location, name) pairs of a whole summary, in loading order.
pub open spec fn spec_summary_location_names(s: SummaryView) -> Seq<(Seq<char>, Seq<char>)> {
    spec_location_names(s.prefix_chapters) + spec_location_names(s.numbered_chapters)
        + spec_location_names(s.suffix_chapters)
}

/// The views of a vector of string pairs.
pub open spec fn pairs_view(s: Seq<(String, String)>) -> Seq<(Seq<char>, Seq<char>)> {
    s.map_values(|p: (String, String)| (p.0@, p.1@))
}

fn location_names_from(items: &Vec<SummaryItem>, k: usize) -> (r: Vec<(String, String)>)
    requires
        k <= items@.len(),
    ensures
        pairs_view(r@) == spec_location_names(items_views(items@).skip(k as int)),
    decreases *items, items@.len() - k, 0int,
{
    if k >= items.len() {
        proof {
            assert(items_views(items@).skip(k as int) =~= Seq::<SummaryItemView>::empty());
            assert(pairs_view(Seq::<(String, String)>::empty()) =~= Seq::<
                (Seq<char>, Seq<char>),
            >::empty());
        }
        Vec::new()
    } else {
        proof {
            assert(decreases_to!(*items => items@));
            assert(decreases_to!(items@ => items@[k as int]));
        }
        let mut out = item_location_names(&items[k]);
        let mut rest = location_names_from(items, k + 1);
        out.append(&mut rest);
        proof {
            let s = items_views(items@).skip(k as int);
            assert(s[0] == item_view(items@[k as int]));
            assert(s.drop_first() =~= items_views(items@).skip(k + 1));
            assert(pairs_view(out@) =~= spec_location_names(s));
        }
        out
    }
}

fn item_location_names(item: &SummaryItem) -> (r: Vec<(String, String)>)
    ensures
        pairs_view(r@) == spec_item_location_names(item_view(*item)),
    decreases *item, 0int, 1int,
{
    match item {
        SummaryItem::Link(l) => {
            let mut out: Vec<(String, String)> = Vec::new();
            if let Some(loc) = &l.location {
                out.push((loc.clone(), l.name.clone()));
            }
            proof {
                assert(items_views(l.nested_items@).skip(0) =~= items_views(l.nested_items@));
            }
            let mut rest = location_names_from(&l.nested_items, 0);
            out.append(&mut rest);
            proof {
                lemma_seq_items_views(l.nested_items@);
                assert(pairs_view(out@) =~= spec_item_location_names(item_view(*item)));
            }
            out
        },
        _ => {
            proof {
                assert(pairs_view(Seq::<(String, String)>::empty()) =~= Seq::<
                    (Seq<char>, Seq<char>),
                >::empty());
                assert(spec_item_location_names(item_view(*item)) =~= Seq::<
                    (Seq<char>, Seq<char>),
                >::empty());
            }
            Vec::new()
        },
    }
}

/// Every chapter-file location the summary names, paired with the name of
/// the chapter it belongs to, in loading order: what creating a missing
/// chapter file (seeded with its chapter's heading) needs.
pub fn chapter_location_names(summary: &Summary) -> (r: Vec<(String, String)>)
    ensures
        pairs_view(r@) == spec_summary_location_names(summary@),
{
    proof {
        assert(items_views(summary.prefix_chapters@).skip(0) =~= items_views(
            summary.prefix_chapters@,
        ));
        assert(items_views(summary.numbered_chapters@).skip(0) =~= items_views(
            summary.numbered_chapters@,
        ));
        assert(items_views(summary.suffix_chapters@).skip(0) =~= items_views(
            summary.suffix_chapters@,
        ));
    }
    let mut out = location_names_from(&summary.prefix_chapters, 0);
    let mut b = location_names_from(&summary.numbered_chapters, 0);
    let mut c = location_names_from(&summary.suffix_chapters, 0);
    out.append(&mut b);
    out.append(&mut c);
    proof {
        assert(pairs_view(out@) =~= spec_summary_location_names(summary@));
    }
    out
}

// ---------------------------------------------------------------------------
// Assembling the book
// ---------------------------------------------------------------------------

/// A leading byte-order mark, if any, removed.
pub open spec fn spec_strip_bom(c: Seq<char>) -> Seq<char> {
    if c.len() > 0 && c[0] == '\u{feff}' {
        c.drop_first()
    } else {
        c
    }
}

/// Remove a leading UTF-8 byte-order mark from chapter text.
pub fn strip_bom(c: &str) -> (r: String)
    ensures
        r@ == spec_strip_bom(c@),
{
    let n = c.unicode_len();
    if n > 0 && c.get_char(0) == '\u{feff}' {
        let rest = c.substring_char(1, n);
        proof {
            assert(c@.subrange(1, n as int) =~= c@.drop_first());
        }
        rest.to_owned()
    } else {
        c.to_owned()
    }
}

/// The Markdown seeded into a chapter file created for a link that has no
/// file yet: a heading holding the chapter's name, angle brackets escaped.
pub fn missing_chapter_seed(name: &str) -> (r: String)
    ensures
        r@ == seq!['#', ' '] + spec_bracket_escape(name@) + seq!['\n'],
{
    let mut out = String::new();
    out.push('#');
    out.push(' ');
    let esc = bracket_escape(name);
    out.append(esc.as_str());
    out.push('\n');
    proof {
        assert(out@ =~= seq!['#', ' '] + spec_bracket_escape(name@) + seq!['\n']);
    }
    out
}

/// Loading one summary item against the supplied file contents: a link with
/// a location consumes the next outcome (its text with the byte-order mark
/// stripped, or the corresponding error); a draft link consumes nothing and
/// yields an empty chapter with no path; nested items load recursively with
/// the chapter's name appended to the parent names.
pub open spec fn spec_load_item(
    item: SummaryItemView,
    files: Seq<FileOutcomeView>,
    fi: int,
    parents: Seq<Seq<char>>,
) -> Result<(BookItemView, int), LoadErrorView>
    decreases item, 1int,
{
    match item {
        SummaryItemView::Separator => Result::Ok((BookItemView::Separator, fi)),
        SummaryItemView::PartTitle(t) => Result::Ok((BookItemView::PartTitle(t), fi)),
        SummaryItemView::Link(l) => {
            let step: Result<(Seq<char>, Option<Seq<char>>, int), LoadErrorView> = match l.location {
                Option::Some(loc) => {
                    if !(0 <= fi < files.len()) {
                        Result::Err(LoadErrorView::MissingContent)
                    } else {
                        match files[fi] {
                            FileOutcomeView::Content(c) => Result::Ok(
                                (spec_strip_bom(c), Option::Some(loc), fi + 1),
                            ),
                            FileOutcomeView::NotFound => Result::Err(
                                LoadErrorView::ChapterNotFound { location: loc },
                            ),
                            FileOutcomeView::Unreadable => Result::Err(
                                LoadErrorView::ChapterUnreadable { name: l.name, location: loc },
                            ),
                        }
                    }
                },
                Option::None => Result::Ok((Seq::<char>::empty(), Option::None, fi)),
            };
            match step {
                Result::Err(e) => Result::Err(e),
                Result::Ok((content, path, fi2)) => {
                    match spec_load_items(l.nested, files, fi2, parents.push(l.name)) {
                        Result::Err(e) => Result::Err(e),
                        Result::Ok((subs, fi3)) => Result::Ok(
                            (
                                BookItemView::Chapter(
                                    ChapterView {
                                        name: l.name,
                                        content: content,
                                        number: l.number,
                                        sub_items: subs,
                                        path: path,
                                        source_path: path,
                                        parent_names: parents,
                                    },
                                ),
                                fi3,
                            ),
                        ),
                    }
                },
            }
        },
    }
}

/// [`spec_load_item`] over a forest, threading the file cursor.
pub open spec fn spec_load_items(
    items: Seq<SummaryItemView>,
    files: Seq<FileOutcomeView>,
    fi: int,
    parents: Seq<Seq<char>>,
) -> Result<(Seq<BookItemView>, int), LoadErrorView>
    decreases items, 0int,
{
    if items.len() == 0 {
        Result::Ok((Seq::empty(), fi))
    } else {
        match spec_load_item(items[0], files, fi, parents) {
            Result::Err(e) => Result::Err(e),
            Result::Ok((b, fi2)) => match spec_load_items(items.drop_first(), files, fi2, parents) {
                Result::Err(e) => Result::Err(e),
                Result::Ok((rest, fi3)) => Result::Ok((seq![b] + rest, fi3)),
            },
        }
    }
}

/// What loading a whole summary yields: prefix, numbered and suffix
/// chapters loaded in that order against one run of file contents.
pub open spec fn spec_load_book(s: SummaryView, files: Seq<FileOutcomeView>) -> Result<
    Seq<BookItemView>,
    LoadErrorView,
> {
    match spec_load_items(s.prefix_chapters, files, 0, Seq::empty()) {
        Result::Err(e) => Result::Err(e),
        Result::Ok((p, f1)) => match spec_load_items(s.numbered_chapters, files, f1, Seq::empty()) {
            Result::Err(e) => Result::Err(e),
            Result::Ok((n, f2)) => match spec_load_items(s.suffix_chapters, files, f2, Seq::empty()) {
                Result::Err(e) => Result::Err(e),
                Result::Ok((sfx, _)) => Result::Ok(p + n + sfx),
            },
        },
    }
}

fn exec_load_item(
    item: &SummaryItem,
    files: &Vec<FileOutcome>,
    fi: usize,
    parents: &Vec<String>,
) -> (r: Result<(BookItem, usize), LoadError>)
    ensures
        ({
            let s = spec_load_item(item_view(*item), file_views(files@), fi as int, strs_view(parents@));
            match (r, s) {
                (Result::Ok((b, f2)), Result::Ok((sb, sf2))) => crate::book::book_item_view(b) == sb
                    && f2 as int == sf2,
                (Result::Err(e), Result::Err(se)) => e@ == se,
                _ => false,
            }
        }),
    decreases *item, 0int, 1int,
{
    match item {
        SummaryItem::Separator => Ok((BookItem::Separator, fi)),
        SummaryItem::PartTitle(t) => Ok((BookItem::PartTitle(t.clone()), fi)),
        SummaryItem::Link(l) => {
            let (content, path, fi2): (String, Option<String>, usize) = match &l.location {
                Some(loc) => {
                    if fi >= files.len() {
                        return Err(LoadError::MissingContent);
                    }
                    proof {
                        assert(file_views(files@)[fi as int] == files@[fi as int]@);
                    }
                    match &files[fi] {
                        FileOutcome::Content(c) => (strip_bom(c.as_str()), Some(loc.clone()), fi + 1),
                        FileOutcome::NotFound => {
                            return Err(LoadError::ChapterNotFound { location: loc.clone() });
                        },
                        FileOutcome::Unreadable => {
                            return Err(
                                LoadError::ChapterUnreadable {
                                    name: l.name.clone(),
                                    location: loc.clone(),
                                },
                            );
                        },
                    }
                },
                None => (String::new(), None, fi),
            };
            let mut parents2 = crate::book::clone_strings(parents);
            parents2.push(l.name.clone());
            proof {
                lemma_seq_items_views(l.nested_items@);
                assert(items_views(l.nested_items@).skip(0) =~= items_views(l.nested_items@));
                assert(strs_view(parents2@) =~= strs_view(parents@).push(l.name@));
            }
            match exec_load_items(&l.nested_items, 0, files, fi2, &parents2) {
                Err(e) => Err(e),
                Ok((subs, fi3)) => {
                    let source_path = match &path {
                        Some(p) => Some(p.clone()),
                        None => None,
                    };
                    let ch = Chapter {
                        name: l.name.clone(),
                        content,
                        number: crate::book::clone_opt_number(&l.number),
                        sub_items: subs,
                        path,
                        source_path,
                        parent_names: crate::book::clone_strings(parents),
                    };
                    proof {
                        lemma_seq_book_views(ch.sub_items@);
                        lemma_seq_items_views(l.nested_items@);
                        assert(strs_view(parents2@) =~= strs_view(parents@).push(l.name@));
                    }
                    Ok((BookItem::Chapter(ch), fi3))
                },
            }
        },
    }
}

fn exec_load_items(
    items: &Vec<SummaryItem>,
    k: usize,
    files: &Vec<FileOutcome>,
    fi: usize,
    parents: &Vec<String>,
) -> (r: Result<(Vec<BookItem>, usize), LoadError>)
    requires
        k <= items@.len(),
    ensures
        ({
            let s = spec_load_items(
                items_views(items@).skip(k as int),
                file_views(files@),
                fi as int,
                strs_view(parents@),
            );
            match (r, s) {
                (Result::Ok((v, f2)), Result::Ok((sv, sf2))) => book_views(v@) == sv && f2 as int
                    == sf2,
                (Result::Err(e), Result::Err(se)) => e@ == se,
                _ => false,
            }
        }),
    decreases *items, items@.len() - k, 0int,
{
    if k >= items.len() {
        proof {
            assert(items_views(items@).skip(k as int) =~= Seq::<SummaryItemView>::empty());
            assert(book_views(Seq::<BookItem>::empty()) =~= Seq::<BookItemView>::empty());
        }
        return Ok((Vec::new(), fi));
    }
    proof {
        assert(decreases_to!(*items => items@));
        assert(decreases_to!(items@ => items@[k as int]));
    }
    let ghost s = items_views(items@).skip(k as int);
    proof {
        assert(s[0] == item_view(items@[k as int]));
        assert(s.drop_first() =~= items_views(items@).skip(k + 1));
    }
    match exec_load_item(&items[k], files, fi, parents) {
        Err(e) => Err(e),
        Ok((b, fi2)) => match exec_load_items(items, k + 1, files, fi2, parents) {
            Err(e) => Err(e),
            Ok((rest, fi3)) => {
                let ghost bv = crate::book::book_item_view(b);
                let mut out: Vec<BookItem> = Vec::new();
                out.push(b);
                let mut rest2 = rest;
                out.append(&mut rest2);
                proof {
                    assert(book_views(out@) =~= seq![bv] + book_views(rest@));
                }
                Ok((out, fi3))
            },
        },
    }
}

/// Assemble the book: every link of the summary becomes a chapter holding
/// the matching entry of `files` (in [`chapter_locations`] order), drafts
/// become empty chapters with no path, and the first missing or unreadable
/// file aborts the load with its location.
pub fn load_book_from_contents(summary: &Summary, files: &Vec<FileOutcome>) -> (r: Result<
    Book,
    LoadError,
>)
    ensures
        ({
            let s = spec_load_book(summary@, file_views(files@));
            match (r, s) {
                (Result::Ok(b), Result::Ok(sv)) => b@ == sv,
                (Result::Err(e), Result::Err(se)) => e@ == se,
                _ => false,
            }
        }),
{
    proof {
        assert(items_views(summary.prefix_chapters@).skip(0) =~= items_views(
            summary.prefix_chapters@,
        ));
        assert(items_views(summary.numbered_chapters@).skip(0) =~= items_views(
            summary.numbered_chapters@,
        ));
        assert(items_views(summary.suffix_chapters@).skip(0) =~= items_views(
            summary.suffix_chapters@,
        ));
        assert(strs_view(Seq::<String>::empty()) =~= Seq::<Seq<char>>::empty());
    }
    let no_parents: Vec<String> = Vec::new();
    match exec_load_items(&summary.prefix_chapters, 0, files, 0, &no_parents) {
        Err(e) => Err(e),
        Ok((mut sections, f1)) => match exec_load_items(
            &summary.numbered_chapters,
            0,
            files,
            f1,
            &no_parents,
        ) {
            Err(e) => Err(e),
            Ok((mut n, f2)) => match exec_load_items(&summary.suffix_chapters, 0, files, f2, &no_parents) {
                Err(e) => Err(e),
                Ok((mut sfx, _)) => {
                    sections.append(&mut n);
                    sections.append(&mut sfx);
                    proof {
                        assert(book_views(sections@) =~= spec_load_book(
                            summary@,
                            file_views(files@),
                        )->Ok_0);
                    }
                    Ok(Book { sections })
                },
            },
        },
    }
}

} // verus!
