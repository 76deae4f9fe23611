//! Parsing `SUMMARY.md` into a [`Summary`] tree: an optional title, prefix
//! links, numbered parts and suffix links.
//!
//! The parser is a recursive-descent state machine over the flat Markdown
//! event stream of [`crate::events`]. Its whole behaviour is written down as
//! the spec functions in this file (`spec_parse_title`, `spec_parse_affix`,
//! `spec_parse_parts`, ...); the executable parser is proved to return
//! exactly what they describe. Every phase threads a cursor into the event
//! sequence and the byte offset of the event most recently delivered, from
//! which parse errors compute their line and column.

use vstd::prelude::*;

use crate::events::{
    lex_summary, lexed_views, spec_tag_matches, tag_matches, LexedEvent, LexedEventView, MdEvent,
    MdEventView, MdTag, MdTagView,
};
use crate::section_number::SectionNumber;
use crate::text::{replace_in_str, spec_replace_all};
use vstd::pervasive::unreached;
use vstd::string::{StrSliceExecFns, StringExecFns};

verus! {

broadcast use
    vstd::seq::axiom_seq_index_decreases,
    vstd::seq::axiom_seq_subrange_decreases,
    vstd::std_specs::vec::axiom_vec_decreases_to_view;


/// A link in the summary: a chapter name, an optional source location
/// (absent for draft chapters), an optional section number (present only in
/// the numbered section), and the chapter's own nested items.
#[derive(Debug, PartialEq)]
pub struct Link {
    pub name: String,
    pub location: Option<String>,
    pub number: Option<SectionNumber>,
    pub nested_items: Vec<SummaryItem>,
}

/// One entry of the summary: a chapter link, a separator (`---`), or a part
/// title.
#[derive(Debug, PartialEq)]
pub enum SummaryItem {
    Link(Link),
    Separator,
    PartTitle(String),
}

/// The parsed `SUMMARY.md`: an optional title, chapters before the numbered
/// section, the numbered section itself (part titles interleaved with
/// numbered links), and chapters after it.
#[derive(Debug, PartialEq, Default)]
pub struct Summary {
    pub title: Option<String>,
    pub prefix_chapters: Vec<SummaryItem>,
    pub numbered_chapters: Vec<SummaryItem>,
    pub suffix_chapters: Vec<SummaryItem>,
}

/// Mathematical image of a [`Link`].
pub struct LinkView {
    pub name: Seq<char>,
    pub location: Option<Seq<char>>,
    pub number: Option<Seq<u32>>,
    pub nested: Seq<SummaryItemView>,
}

/// Mathematical image of a [`SummaryItem`].
pub enum SummaryItemView {
    Link(LinkView),
    Separator,
    PartTitle(Seq<char>),
}

/// Mathematical image of a [`Summary`].
pub struct SummaryView {
    pub title: Option<Seq<char>>,
    pub prefix_chapters: Seq<SummaryItemView>,
    pub numbered_chapters: Seq<SummaryItemView>,
    pub suffix_chapters: Seq<SummaryItemView>,
}

/// The view of an optional string.
pub open spec fn opt_str_view(o: Option<String>) -> Option<Seq<char>> {
    match o {
        Option::Some(s) => Option::Some(s@),
        Option::None => Option::None,
    }
}

/// The view of an optional section number.
pub open spec fn opt_num_view(o: Option<SectionNumber>) -> Option<Seq<u32>> {
    match o {
        Option::Some(n) => Option::Some(n.0@),
        Option::None => Option::None,
    }
}

/// The view of a link, nested items included.
pub open spec fn link_view(l: Link) -> LinkView
    decreases l,
{
    LinkView {
        name: l.name@,
        location: opt_str_view(l.location),
        number: opt_num_view(l.number),
        nested: vec_items_views(l.nested_items),
    }
}

/// The views of the items of a vector, defined recursively so the mutual
/// recursion with [`link_view`] terminates; [`items_views`] is the form the
/// rest of the library uses.
pub open spec fn vec_items_views(v: Vec<SummaryItem>) -> Seq<SummaryItemView>
    decreases v,
{
    seq_items_views(v@)
}

/// Element-wise [`item_view`] by structural recursion.
pub open spec fn seq_items_views(s: Seq<SummaryItem>) -> Seq<SummaryItemView>
    decreases s,
{
    if s.len() == 0 {
        Seq::empty()
    } else {
        seq![item_view(s[0])] + seq_items_views(s.drop_first())
    }
}

/// The view of one summary item.
pub open spec fn item_view(i: SummaryItem) -> SummaryItemView
    decreases i,
{
    match i {
        SummaryItem::Link(l) => SummaryItemView::Link(link_view(l)),
        SummaryItem::Separator => SummaryItemView::Separator,
        SummaryItem::PartTitle(t) => SummaryItemView::PartTitle(t@),
    }
}

/// The views of a sequence of summary items.
pub open spec fn items_views(s: Seq<SummaryItem>) -> Seq<SummaryItemView> {
    s.map_values(|x: SummaryItem| item_view(x))
}

/// The recursive and the element-wise view of an item sequence agree.
pub broadcast proof fn lemma_seq_items_views(s: Seq<SummaryItem>)
    ensures
        #[trigger] seq_items_views(s) == items_views(s),
    decreases s.len(),
{
    if s.len() == 0 {
        assert(seq_items_views(s) =~= items_views(s));
    } else {
        lemma_seq_items_views(s.drop_first());
        assert(seq_items_views(s) =~= items_views(s));
    }
}

impl View for Link {
    type V = LinkView;

    open spec fn view(&self) -> LinkView {
        link_view(*self)
    }
}

impl View for SummaryItem {
    type V = SummaryItemView;

    open spec fn view(&self) -> SummaryItemView {
        item_view(*self)
    }
}

impl View for Summary {
    type V = SummaryView;

    open spec fn view(&self) -> SummaryView {
        SummaryView {
            title: opt_str_view(self.title),
            prefix_chapters: items_views(self.prefix_chapters@),
            numbered_chapters: items_views(self.numbered_chapters@),
            suffix_chapters: items_views(self.suffix_chapters@),
        }
    }
}

impl Link {
    /// A link with the given name and location and no nested items.
    pub fn new(name: &str, location: &str) -> (r: Link)
        ensures
            r@.name == name@,
            r@.location == Option::Some(location@),
            r@.number is None,
            r@.nested.len() == 0,
    {
        Link {
            name: name.to_owned(),
            location: Some(location.to_owned()),
            number: None,
            nested_items: Vec::new(),
        }
    }
}

impl Default for Link {
    /// An empty link: empty name, empty (but present) location.
    fn default() -> (r: Link)
        ensures
            r@.name.len() == 0,
            r@.location == Option::Some(Seq::<char>::empty()),
            r@.number is None,
            r@.nested.len() == 0,
    {
        Link {
            name: String::new(),
            location: Some(String::new()),
            number: None,
            nested_items: Vec::new(),
        }
    }
}

/// Why a parse gave up, with the byte offset where it happened.
#[derive(Debug, Clone, Copy, PartialEq, Eq, Structural)]
pub enum SummaryAbort {
    /// A list or heading began after the suffix chapters.
    SuffixList { offset: usize },
    /// A nested list item held something other than a single hyperlink.
    NestedNotLink { offset: usize },
    /// A nested list appeared but no link was there to attach it to.
    NoLastLink,
}

/// A failure to parse `SUMMARY.md`, with the 1-based line and column derived
/// from the byte offset of the offending event.
#[derive(Debug, Clone, Copy, PartialEq, Eq, Structural)]
pub enum SummaryError {
    /// "Suffix chapters cannot be followed by a list"
    SuffixChaptersAfterList { line: usize, col: usize },
    /// "The link items for nested chapters must only contain a hyperlink"
    NestedChapterMustBeLink { line: usize, col: usize },
    /// The list of items that a nested list should attach to holds no link.
    NoLastLink,
}

// ---------------------------------------------------------------------------
// Event classification
// ---------------------------------------------------------------------------

pub open spec fn is_start_h1(e: MdEventView) -> bool {
    match e {
        MdEventView::Start(MdTagView::Heading(l)) => l == 1,
        _ => false,
    }
}

pub open spec fn is_end_h1(e: MdEventView) -> bool {
    match e {
        MdEventView::End(MdTagView::Heading(l)) => l == 1,
        _ => false,
    }
}

pub open spec fn is_end_link(e: MdEventView) -> bool {
    match e {
        MdEventView::End(MdTagView::Link { .. }) => true,
        _ => false,
    }
}

pub open spec fn is_start_paragraph(e: MdEventView) -> bool {
    e == MdEventView::Start(MdTagView::Paragraph)
}

pub open spec fn is_start_list(e: MdEventView) -> bool {
    e == MdEventView::Start(MdTagView::List)
}

// ---------------------------------------------------------------------------
// The specification of the parser
// ---------------------------------------------------------------------------

/// Which end event a text collection stops at.
#[derive(Clone, Copy, PartialEq, Eq, Structural, Debug)]
pub enum CollectKind {
    /// Stop at the end of a level-1 heading.
    HeadingEnd,
    /// Stop at the end of any link.
    LinkEnd,
}

/// Does collection of kind `kind` stop at event `e`?
pub open spec fn collect_stops(kind: CollectKind, e: MdEventView) -> bool {
    match kind {
        CollectKind::HeadingEnd => is_end_h1(e),
        CollectKind::LinkEnd => is_end_link(e),
    }
}

/// The plain text one event contributes to a collected name or title:
/// text and inline code keep their characters, a soft break becomes one
/// space, everything else contributes nothing.
pub open spec fn text_contribution(e: MdEventView) -> Seq<char> {
    match e {
        MdEventView::Text(t) => t,
        MdEventView::Code(t) => t,
        MdEventView::SoftBreak => seq![' '],
        _ => Seq::<char>::empty(),
    }
}

/// Collect the plain text of the events from `i` up to the first event that
/// stops the collection (consumed) or the end of the stream. Returns the
/// text and the cursor after the collection.
pub open spec fn spec_collect_text(evs: Seq<LexedEventView>, i: int, kind: CollectKind) -> (Seq<
    char,
>, int)
    decreases evs.len() - i,
{
    if !(0 <= i < evs.len()) {
        (Seq::<char>::empty(), evs.len() as int)
    } else if collect_stops(kind, evs[i].event) {
        (Seq::<char>::empty(), i + 1)
    } else {
        let (rest, j) = spec_collect_text(evs, i + 1, kind);
        (text_contribution(evs[i].event) + rest, j)
    }
}

/// Clamp a phase's next cursor into `[lo, n]`, so that every phase provably
/// advances and never runs past the end of the stream. The parser's phases
/// always advance on their own; the clamp only makes that plain to the
/// termination checker.
pub open spec fn step_to(lo: int, j: int, n: int) -> int {
    if j < lo {
        lo
    } else if j > n {
        n
    } else {
        j
    }
}

/// A link parsed from its destination and the events after its start tag:
/// `%20` in the destination unescapes to a space, an empty destination means
/// a draft (no location), and the link's name is the collected text up to
/// the link's end tag.
pub open spec fn spec_parse_link(evs: Seq<LexedEventView>, i: int, dest: Seq<char>) -> (LinkView,
    int,
) {
    let href = spec_replace_all(dest, seq!['%', '2', '0'], seq![' ']);
    let (name, j) = spec_collect_text(evs, i, CollectKind::LinkEnd);
    (
        LinkView {
            name: name,
            location: if href.len() == 0 {
                Option::None
            } else {
                Option::Some(href)
            },
            number: Option::None,
            nested: Seq::empty(),
        },
        j,
    )
}

/// The optional title: a level-1 heading at the very start, HTML (such as a
/// comment) skipped silently before it; anything else is pushed back and
/// there is no title. Returns the title, the cursor, and the offset of the
/// last delivered event.
pub open spec fn spec_parse_title(evs: Seq<LexedEventView>, i: int, last: usize) -> (Option<
    Seq<char>,
>, int, usize)
    decreases evs.len() - i,
{
    if !(0 <= i < evs.len()) {
        (Option::None, i, last)
    } else {
        let e = evs[i];
        if is_start_h1(e.event) {
            let (txt, j) = spec_collect_text(evs, i + 1, CollectKind::HeadingEnd);
            (Option::Some(txt), step_to(i + 1, j, evs.len() as int), e.offset)
        } else if e.event is Html {
            spec_parse_title(evs, i + 1, e.offset)
        } else {
            (Option::None, i, e.offset)
        }
    }
}

/// The prefix or suffix chapters: links and separators collected until a
/// list or level-1 heading starts. In the prefix that event is pushed back
/// and the phase ends; in the suffix it is a parse error. Everything else is
/// skipped.
pub open spec fn spec_parse_affix(
    evs: Seq<LexedEventView>,
    i: int,
    last: usize,
    is_prefix: bool,
    acc: Seq<SummaryItemView>,
) -> Result<(Seq<SummaryItemView>, int, usize), SummaryAbort>
    decreases evs.len() - i,
{
    let n = evs.len() as int;
    if !(0 <= i < n) {
        Result::Ok((acc, i, last))
    } else {
        let e = evs[i];
        match e.event {
            MdEventView::Start(MdTagView::List) => {
                if is_prefix {
                    Result::Ok((acc, i, e.offset))
                } else {
                    Result::Err(SummaryAbort::SuffixList { offset: e.offset })
                }
            },
            MdEventView::Start(MdTagView::Heading(l)) => {
                if l == 1 {
                    if is_prefix {
                        Result::Ok((acc, i, e.offset))
                    } else {
                        Result::Err(SummaryAbort::SuffixList { offset: e.offset })
                    }
                } else {
                    spec_parse_affix(evs, i + 1, e.offset, is_prefix, acc)
                }
            },
            MdEventView::Start(MdTagView::Link { dest, .. }) => {
                let (link, j) = spec_parse_link(evs, i + 1, dest);
                spec_parse_affix(
                    evs,
                    step_to(i + 1, j, n),
                    e.offset,
                    is_prefix,
                    acc.push(SummaryItemView::Link(link)),
                )
            },
            MdEventView::Rule => spec_parse_affix(
                evs,
                i + 1,
                e.offset,
                is_prefix,
                acc.push(SummaryItemView::Separator),
            ),
            _ => spec_parse_affix(evs, i + 1, e.offset, is_prefix, acc),
        }
    }
}

/// The sibling index pushed onto a parent section number when `k` numbered
/// items already sit at that level: `k + 1` on the wrapping 32-bit sibling
/// counter.
pub open spec fn sibling_number(k: int) -> u32 {
    (((k % 0x1_0000_0000) + 1) % 0x1_0000_0000) as u32
}

/// `a + b` on the 32-bit counters, wrapping.
pub open spec fn wrap_add_u32(a: u32, b: u32) -> u32 {
    ((a + b) % 0x1_0000_0000) as u32
}

/// The low 32 bits of a count.
pub open spec fn trunc_u32(k: int) -> u32 {
    (k % 0x1_0000_0000) as u32
}

/// One nested list item: leading paragraph starts are skipped, then a link
/// start must follow (anything else is a parse error). The link's number is
/// the parent number extended with the sibling index for `k` existing items.
pub open spec fn spec_parse_nested_item(
    evs: Seq<LexedEventView>,
    i: int,
    last: usize,
    parent: Seq<u32>,
    k: int,
) -> Result<(SummaryItemView, int, usize), SummaryAbort>
    decreases evs.len() - i,
{
    let n = evs.len() as int;
    if !(0 <= i < n) {
        Result::Err(SummaryAbort::NestedNotLink { offset: last })
    } else {
        let e = evs[i];
        match e.event {
            MdEventView::Start(MdTagView::Paragraph) => spec_parse_nested_item(
                evs,
                i + 1,
                e.offset,
                parent,
                k,
            ),
            MdEventView::Start(MdTagView::Link { dest, .. }) => {
                let (l0, j) = spec_parse_link(evs, i + 1, dest);
                let link = LinkView {
                    number: Option::Some(parent.push(sibling_number(k))),
                    ..l0
                };
                Result::Ok((SummaryItemView::Link(link), step_to(i + 1, j, n), e.offset))
            },
            _ => Result::Err(SummaryAbort::NestedNotLink { offset: e.offset }),
        }
    }
}

/// The index of the last link among `items`, if any.
pub open spec fn spec_find_last_link(items: Seq<SummaryItemView>) -> Option<int>
    decreases items.len(),
{
    if items.len() == 0 {
        Option::None
    } else if items.last() is Link {
        Option::Some(items.len() - 1)
    } else {
        spec_find_last_link(items.drop_last())
    }
}

/// One level of the numbered list grammar: item starts begin a nested item;
/// a list start with no items yet is a stray wrapper and is skipped; a list
/// start after at least one item opens that last link's sub-chapters, using
/// its number as the new parent; a list end closes the level.
pub open spec fn spec_parse_nested_numbered(
    evs: Seq<LexedEventView>,
    i: int,
    last: usize,
    parent: Seq<u32>,
    acc: Seq<SummaryItemView>,
) -> Result<(Seq<SummaryItemView>, int, usize), SummaryAbort>
    decreases evs.len() - i,
{
    let n = evs.len() as int;
    if !(0 <= i < n) {
        Result::Ok((acc, i, last))
    } else {
        let e = evs[i];
        match e.event {
            MdEventView::Start(MdTagView::Item) => {
                match spec_parse_nested_item(evs, i + 1, e.offset, parent, acc.len() as int) {
                    Result::Err(a) => Result::Err(a),
                    Result::Ok((item, j, last2)) => spec_parse_nested_numbered(
                        evs,
                        step_to(i + 1, j, n),
                        last2,
                        parent,
                        acc.push(item),
                    ),
                }
            },
            MdEventView::Start(MdTagView::List) => {
                if acc.len() == 0 {
                    spec_parse_nested_numbered(evs, i + 1, e.offset, parent, acc)
                } else {
                    match spec_find_last_link(acc) {
                        Option::None => Result::Err(SummaryAbort::NoLastLink),
                        Option::Some(ix) => {
                            let lk = acc[ix]->Link_0;
                            let parent2 = lk.number->Some_0;
                            match spec_parse_nested_numbered(
                                evs,
                                i + 1,
                                e.offset,
                                parent2,
                                Seq::empty(),
                            ) {
                                Result::Err(a) => Result::Err(a),
                                Result::Ok((sub, j, last2)) => {
                                    let updated = SummaryItemView::Link(
                                        LinkView { nested: sub, ..lk },
                                    );
                                    spec_parse_nested_numbered(
                                        evs,
                                        step_to(i + 1, j, n),
                                        last2,
                                        parent,
                                        acc.update(ix, updated),
                                    )
                                },
                            }
                        },
                    }
                }
            },
            MdEventView::End(MdTagView::List) => Result::Ok((acc, i + 1, e.offset)),
            _ => spec_parse_nested_numbered(evs, i + 1, e.offset, parent, acc),
        }
    }
}

/// Add `by` to the section-number entry at `level` of every link, nested
/// links included: re-bases a batch of freshly numbered root items so that
/// numbering continues across lists and parts.
pub open spec fn spec_update_numbers(items: Seq<SummaryItemView>, level: int, by: u32) -> Seq<
    SummaryItemView,
> {
    items.map_values(|x: SummaryItemView| spec_update_item(x, level, by))
}

/// [`spec_update_numbers`] by structural recursion, for the termination of
/// [`spec_update_item`].
pub open spec fn spec_update_numbers_rec(items: Seq<SummaryItemView>, level: int, by: u32) -> Seq<
    SummaryItemView,
>
    decreases items,
{
    if items.len() == 0 {
        Seq::empty()
    } else {
        seq![spec_update_item(items[0], level, by)] + spec_update_numbers_rec(
            items.drop_first(),
            level,
            by,
        )
    }
}

/// The recursive and the element-wise number update agree.
pub broadcast proof fn lemma_update_numbers_rec(items: Seq<SummaryItemView>, level: int, by: u32)
    ensures
        #[trigger] spec_update_numbers_rec(items, level, by) == spec_update_numbers(
            items,
            level,
            by,
        ),
    decreases items.len(),
{
    if items.len() == 0 {
        assert(spec_update_numbers_rec(items, level, by) =~= spec_update_numbers(items, level, by));
    } else {
        lemma_update_numbers_rec(items.drop_first(), level, by);
        assert(spec_update_numbers_rec(items, level, by) =~= spec_update_numbers(items, level, by));
    }
}

/// [`spec_update_numbers`] on one item.
pub open spec fn spec_update_item(item: SummaryItemView, level: int, by: u32) -> SummaryItemView
    decreases item,
{
    match item {
        SummaryItemView::Link(l) => SummaryItemView::Link(
            LinkView {
                number: match l.number {
                    Option::Some(num) => Option::Some(
                        if 0 <= level < num.len() {
                            num.update(level, wrap_add_u32(num[level], by))
                        } else {
                            num
                        },
                    ),
                    Option::None => Option::None,
                },
                nested: spec_update_numbers_rec(l.nested, level, by),
                ..l
            },
        ),
        other => other,
    }
}

/// Skip events up to and through the end tag that closes `t`, tracking the
/// offset of each delivered event. Returns the cursor after the end tag (or
/// the end of the stream) and the last offset.
pub open spec fn spec_drain_until_end(
    evs: Seq<LexedEventView>,
    i: int,
    last: usize,
    t: MdTagView,
) -> (int, usize)
    decreases evs.len() - i,
{
    if !(0 <= i < evs.len()) {
        (i, last)
    } else {
        let e = evs[i];
        match e.event {
            MdEventView::End(u) => {
                if spec_tag_matches(u, t) {
                    (i + 1, e.offset)
                } else {
                    spec_drain_until_end(evs, i + 1, e.offset, t)
                }
            },
            _ => spec_drain_until_end(evs, i + 1, e.offset, t),
        }
    }
}

/// One numbered block: the first paragraph start is the list wrapper and is
/// skipped, a later one ends the block (suffix chapters follow); a level-1
/// heading ends the block (a new part follows); each list is parsed as
/// nested numbered items whose root numbers are then re-based by the count
/// of root items already emitted; any other construct is drained; a rule
/// becomes a separator. Returns the items, cursor, last offset, and the
/// updated root-item count.
pub open spec fn spec_parse_numbered(
    evs: Seq<LexedEventView>,
    i: int,
    last: usize,
    first: bool,
    count: u32,
    acc: Seq<SummaryItemView>,
) -> Result<(Seq<SummaryItemView>, int, usize, u32), SummaryAbort>
    decreases evs.len() - i,
{
    let n = evs.len() as int;
    if !(0 <= i < n) {
        Result::Ok((acc, i, last, count))
    } else {
        let e = evs[i];
        match e.event {
            MdEventView::Start(MdTagView::Paragraph) => {
                if first {
                    spec_parse_numbered(evs, i + 1, e.offset, false, count, acc)
                } else {
                    Result::Ok((acc, i, e.offset, count))
                }
            },
            MdEventView::Start(MdTagView::Heading(l)) => {
                if l == 1 {
                    Result::Ok((acc, i, e.offset, count))
                } else {
                    let (j, last2) = spec_drain_until_end(
                        evs,
                        i + 1,
                        e.offset,
                        MdTagView::Heading(l),
                    );
                    spec_parse_numbered(evs, step_to(i + 1, j, n), last2, false, count, acc)
                }
            },
            MdEventView::Start(MdTagView::List) => {
                match spec_parse_nested_numbered(
                    evs,
                    i,
                    e.offset,
                    Seq::<u32>::empty(),
                    Seq::empty(),
                ) {
                    Result::Err(a) => Result::Err(a),
                    Result::Ok((bunch, j, last2)) => {
                        let bunch2 = spec_update_numbers(bunch, 0, count);
                        let count2 = wrap_add_u32(count, trunc_u32(bunch.len() as int));
                        spec_parse_numbered(
                            evs,
                            step_to(i + 1, j, n),
                            last2,
                            false,
                            count2,
                            acc + bunch2,
                        )
                    },
                }
            },
            MdEventView::Start(t) => {
                let (j, last2) = spec_drain_until_end(evs, i + 1, e.offset, t);
                spec_parse_numbered(evs, step_to(i + 1, j, n), last2, false, count, acc)
            },
            MdEventView::Rule => spec_parse_numbered(
                evs,
                i + 1,
                e.offset,
                false,
                count,
                acc.push(SummaryItemView::Separator),
            ),
            _ => spec_parse_numbered(evs, i + 1, e.offset, false, count, acc),
        }
    }
}

/// The numbered section: parts, each an optional level-1 heading (the part
/// title) followed by one numbered block, repeated until a paragraph start
/// (pushed back: the suffix chapters begin) or the end of the stream. The
/// root-item count threads through all parts, so numbering continues across
/// them.
pub open spec fn spec_parse_parts(
    evs: Seq<LexedEventView>,
    i: int,
    last: usize,
    count: u32,
    acc: Seq<SummaryItemView>,
) -> Result<(Seq<SummaryItemView>, int, usize), SummaryAbort>
    decreases evs.len() - i,
{
    let n = evs.len() as int;
    if !(0 <= i < n) {
        Result::Ok((acc, i, last))
    } else {
        let e = evs[i];
        if is_start_paragraph(e.event) {
            Result::Ok((acc, i, e.offset))
        } else if is_start_h1(e.event) {
            let (txt, j0) = spec_collect_text(evs, i + 1, CollectKind::HeadingEnd);
            let j = step_to(i + 1, j0, n);
            match spec_parse_numbered(evs, j, e.offset, true, count, Seq::empty()) {
                Result::Err(a) => Result::Err(a),
                Result::Ok((items, j2, last2, count2)) => spec_parse_parts(
                    evs,
                    step_to(i + 1, j2, n),
                    last2,
                    count2,
                    acc.push(SummaryItemView::PartTitle(txt)) + items,
                ),
            }
        } else {
            match spec_parse_numbered(evs, i, e.offset, true, count, Seq::empty()) {
                Result::Err(a) => Result::Err(a),
                Result::Ok((items, j2, last2, count2)) => spec_parse_parts(
                    evs,
                    step_to(i + 1, j2, n),
                    last2,
                    count2,
                    acc + items,
                ),
            }
        }
    }
}

// ---------------------------------------------------------------------------
// Error locations
// ---------------------------------------------------------------------------

/// How many times byte `b` occurs in `bytes` before position `end`.
pub open spec fn count_byte_before(bytes: Seq<u8>, end: int, b: u8) -> int
    decreases end,
{
    if end <= 0 {
        0
    } else {
        count_byte_before(bytes, end - 1, b) + if 0 <= end - 1 < bytes.len() && bytes[end - 1] == b {
            1int
        } else {
            0int
        }
    }
}

/// The start of the line that byte offset `end` lies on: the position right
/// after the last newline before it, or 0 when there is none.
pub open spec fn spec_line_start(bytes: Seq<u8>, end: int) -> int
    decreases end,
{
    if end <= 0 {
        0
    } else if 0 <= end - 1 < bytes.len() && bytes[end - 1] == 10u8 {
        end
    } else {
        spec_line_start(bytes, end - 1)
    }
}

/// How many UTF-8 character starts (bytes that are not continuation bytes)
/// lie in `bytes[start..end]`.
pub open spec fn count_char_starts(bytes: Seq<u8>, start: int, end: int) -> int
    decreases end - start,
{
    if start >= end {
        0
    } else {
        count_char_starts(bytes, start, end - 1) + if 0 <= end - 1 < bytes.len() && (bytes[end - 1]
            & 0xC0) != 0x80 {
            1int
        } else {
            0int
        }
    }
}

/// The 1-based line of byte offset `off`: one more than the newlines before
/// it (saturating at the line count's type bound, which no real input
/// reaches).
pub open spec fn spec_line_of(bytes: Seq<u8>, off: usize) -> usize {
    let c = count_byte_before(bytes, off as int, 10u8);
    if c + 1 <= usize::MAX {
        (c + 1) as usize
    } else {
        c as usize
    }
}

/// The 1-based column of byte offset `off`: one more than the characters
/// between the start of its line and the offset (saturating at the column's
/// type bound, which no real input reaches).
pub open spec fn spec_col_of(bytes: Seq<u8>, off: usize) -> usize {
    let c = count_char_starts(bytes, spec_line_start(bytes, off as int), off as int);
    if c + 1 <= usize::MAX {
        (c + 1) as usize
    } else {
        c as usize
    }
}

/// The parse error reported for an abort, its line and column computed from
/// the byte offset.
pub open spec fn spec_error_of(a: SummaryAbort, bytes: Seq<u8>) -> SummaryError {
    match a {
        SummaryAbort::SuffixList { offset } => SummaryError::SuffixChaptersAfterList {
            line: spec_line_of(bytes, offset),
            col: spec_col_of(bytes, offset),
        },
        SummaryAbort::NestedNotLink { offset } => SummaryError::NestedChapterMustBeLink {
            line: spec_line_of(bytes, offset),
            col: spec_col_of(bytes, offset),
        },
        SummaryAbort::NoLastLink => SummaryError::NoLastLink,
    }
}

/// What parsing a whole summary returns: the title phase, the prefix
/// chapters, the numbered parts and the suffix chapters, run in that order
/// over the event stream; the first abort wins and carries its location.
pub open spec fn spec_parse_summary(evs: Seq<LexedEventView>, bytes: Seq<u8>) -> Result<
    SummaryView,
    SummaryError,
> {
    let (title, i1, l1) = spec_parse_title(evs, 0, 0);
    match spec_parse_affix(evs, i1, l1, true, Seq::empty()) {
        Result::Err(a) => Result::Err(spec_error_of(a, bytes)),
        Result::Ok((prefix, i2, l2)) => match spec_parse_parts(evs, i2, l2, 0, Seq::empty()) {
            Result::Err(a) => Result::Err(spec_error_of(a, bytes)),
            Result::Ok((numbered, i3, l3)) => match spec_parse_affix(
                evs,
                i3,
                l3,
                false,
                Seq::empty(),
            ) {
                Result::Err(a) => Result::Err(spec_error_of(a, bytes)),
                Result::Ok((suffix, _, _)) => Result::Ok(
                    SummaryView {
                        title: title,
                        prefix_chapters: prefix,
                        numbered_chapters: numbered,
                        suffix_chapters: suffix,
                    },
                ),
            },
        },
    }
}

// ---------------------------------------------------------------------------
// The executable parser
// ---------------------------------------------------------------------------

/// All event offsets lie within `bnd`.
pub open spec fn offsets_within(vs: Seq<LexedEventView>, bnd: int) -> bool {
    forall|k: int| 0 <= k < vs.len() ==> (#[trigger] vs[k]).offset <= bnd
}

/// The offsets an abort carries lie within `bnd`.
pub open spec fn abort_within(a: SummaryAbort, bnd: int) -> bool {
    match a {
        SummaryAbort::SuffixList { offset } => offset <= bnd,
        SummaryAbort::NestedNotLink { offset } => offset <= bnd,
        SummaryAbort::NoLastLink => true,
    }
}

/// Every link among `items` carries a section number.
pub open spec fn all_links_numbered(items: Seq<SummaryItemView>) -> bool {
    forall|j: int|
        0 <= j < items.len() ==> ((#[trigger] items[j]) is Link ==> items[j]->Link_0.number is Some)
}

/// A found last-link index points at a link.
proof fn lemma_find_last_link(items: Seq<SummaryItemView>)
    ensures
        match spec_find_last_link(items) {
            Option::Some(ix) => 0 <= ix < items.len() && items[ix] is Link,
            Option::None => true,
        },
    decreases items.len(),
{
    if items.len() > 0 && !(items.last() is Link) {
        lemma_find_last_link(items.drop_last());
    }
}

fn count_newlines_before(bytes: &Vec<u8>, end: usize) -> (r: usize)
    requires
        end <= bytes@.len(),
    ensures
        r as int == count_byte_before(bytes@, end as int, 10u8),
        r <= end,
{
    let mut k: usize = 0;
    let mut c: usize = 0;
    while k < end
        invariant
            k <= end <= bytes@.len(),
            c as int == count_byte_before(bytes@, k as int, 10u8),
            c <= k,
        decreases end - k,
    {
        if bytes[k] == 10u8 {
            c = c + 1;
        }
        k = k + 1;
    }
    c
}

fn line_start_before(bytes: &Vec<u8>, end: usize) -> (r: usize)
    requires
        end <= bytes@.len(),
    ensures
        r as int == spec_line_start(bytes@, end as int),
        r <= end,
    decreases end,
{
    if end == 0 {
        0
    } else if bytes[end - 1] == 10u8 {
        end
    } else {
        line_start_before(bytes, end - 1)
    }
}

fn count_char_starts_exec(bytes: &Vec<u8>, start: usize, end: usize) -> (r: usize)
    requires
        start <= end <= bytes@.len(),
    ensures
        r as int == count_char_starts(bytes@, start as int, end as int),
        r <= end - start,
    decreases end,
{
    if end <= start {
        0
    } else {
        let c = count_char_starts_exec(bytes, start, end - 1);
        if (bytes[end - 1] & 0xC0) != 0x80 {
            c + 1
        } else {
            c
        }
    }
}

/// The 1-based line and column of a byte offset into the source.
fn location_of(bytes: &Vec<u8>, off: usize) -> (r: (usize, usize))
    requires
        off <= bytes@.len(),
    ensures
        r.0 == spec_line_of(bytes@, off),
        r.1 == spec_col_of(bytes@, off),
{
    let c = count_newlines_before(bytes, off);
    let line = if c == usize::MAX {
        c
    } else {
        c + 1
    };
    let start = line_start_before(bytes, off);
    let cc = count_char_starts_exec(bytes, start, off);
    let col = if cc == usize::MAX {
        cc
    } else {
        cc + 1
    };
    (line, col)
}

/// The error reported for an abort, located in the source bytes.
fn error_of_abort(a: SummaryAbort, bytes: &Vec<u8>) -> (r: SummaryError)
    requires
        abort_within(a, bytes@.len() as int),
    ensures
        r == spec_error_of(a, bytes@),
{
    match a {
        SummaryAbort::SuffixList { offset } => {
            let (line, col) = location_of(bytes, offset);
            SummaryError::SuffixChaptersAfterList { line, col }
        },
        SummaryAbort::NestedNotLink { offset } => {
            let (line, col) = location_of(bytes, offset);
            SummaryError::NestedChapterMustBeLink { line, col }
        },
        SummaryAbort::NoLastLink => SummaryError::NoLastLink,
    }
}

/// Collect the plain text of events up to the stopping end tag.
fn exec_collect_text(evs: &Vec<LexedEvent>, i: usize, kind: CollectKind) -> (r: (String, usize))
    requires
        i <= evs@.len(),
    ensures
        ({
            let (t, p) = spec_collect_text(lexed_views(evs@), i as int, kind);
            r.0@ == t && r.1 as int == p && r.1 <= evs@.len()
        }),
    decreases evs@.len() - i,
{
    if i >= evs.len() {
        return (String::new(), evs.len());
    }
    proof {
        assert(lexed_views(evs@)[i as int] == evs@[i as int]@);
    }
    let stop = match &evs[i].event {
        MdEvent::End(MdTag::Heading(lv)) => match kind {
            CollectKind::HeadingEnd => *lv == 1,
            CollectKind::LinkEnd => false,
        },
        MdEvent::End(MdTag::Link { .. }) => match kind {
            CollectKind::HeadingEnd => false,
            CollectKind::LinkEnd => true,
        },
        _ => false,
    };
    if stop {
        return (String::new(), i + 1);
    }
    let (rest, p) = exec_collect_text(evs, i + 1, kind);
    let out = match &evs[i].event {
        MdEvent::Text(t) => t.clone().concat(rest.as_str()),
        MdEvent::Code(t) => t.clone().concat(rest.as_str()),
        MdEvent::SoftBreak => {
            let mut s = String::new();
            s.push(' ');
            proof {
                assert(s@ =~= seq![' ']);
            }
            s.concat(rest.as_str())
        },
        _ => rest,
    };
    proof {
        let (t, _) = spec_collect_text(lexed_views(evs@), i as int, kind);
        assert(out@ =~= t);
    }
    (out, p)
}

/// Finish parsing one link whose start tag held `dest`.
fn exec_parse_link(evs: &Vec<LexedEvent>, i: usize, dest: &String) -> (r: (Link, usize))
    requires
        i <= evs@.len(),
    ensures
        ({
            let (lv, p) = spec_parse_link(lexed_views(evs@), i as int, dest@);
            r.0@ == lv && r.1 as int == p && r.1 <= evs@.len()
        }),
{
    let href = replace_in_str(dest.as_str(), "%20", " ");
    proof {
        reveal_strlit("%20");
        reveal_strlit(" ");
        assert("%20"@ =~= seq!['%', '2', '0']);
        assert(" "@ =~= seq![' ']);
    }
    let (name, p) = exec_collect_text(evs, i, CollectKind::LinkEnd);
    let location = if href.as_str().is_empty() {
        None
    } else {
        Some(href)
    };
    let link = Link { name, location, number: None, nested_items: Vec::new() };
    proof {
        assert(link@.nested =~= Seq::<SummaryItemView>::empty());
    }
    (link, p)
}

/// The title phase.
fn exec_parse_title(evs: &Vec<LexedEvent>, i: usize, last: usize, Ghost(bnd): Ghost<int>) -> (r: (
    Option<String>,
    usize,
    usize,
))
    requires
        i <= evs@.len(),
        last <= bnd,
        offsets_within(lexed_views(evs@), bnd),
    ensures
        ({
            let (t, p, l) = spec_parse_title(lexed_views(evs@), i as int, last);
            opt_str_view(r.0) == t && r.1 as int == p && r.2 == l && r.1 <= evs@.len() && r.2 <= bnd
        }),
    decreases evs@.len() - i,
{
    if i >= evs.len() {
        return (None, i, last);
    }
    let off = evs[i].offset;
    proof {
        assert(lexed_views(evs@)[i as int] == evs@[i as int]@);
    }
    let cls: u8 = match &evs[i].event {
        MdEvent::Start(MdTag::Heading(lv)) => if *lv == 1 {
            1
        } else {
            0
        },
        MdEvent::Html(_) => 2,
        _ => 0,
    };
    if cls == 1 {
        let (txt, j) = exec_collect_text(evs, i + 1, CollectKind::HeadingEnd);
        let p = if j < i + 1 {
            i + 1
        } else {
            j
        };
        (Some(txt), p, off)
    } else if cls == 2 {
        exec_parse_title(evs, i + 1, off, Ghost(bnd))
    } else {
        (None, i, off)
    }
}

/// The prefix or suffix phase.
fn exec_parse_affix(
    evs: &Vec<LexedEvent>,
    i: usize,
    last: usize,
    is_prefix: bool,
    acc: Vec<SummaryItem>,
    Ghost(bnd): Ghost<int>,
) -> (r: Result<(Vec<SummaryItem>, usize, usize), SummaryAbort>)
    requires
        i <= evs@.len(),
        last <= bnd,
        offsets_within(lexed_views(evs@), bnd),
    ensures
        ({
            let s = spec_parse_affix(lexed_views(evs@), i as int, last, is_prefix, items_views(acc@));
            match (r, s) {
                (Result::Ok((v, p, l)), Result::Ok((sv, sp, sl))) => items_views(v@) == sv && p
                    as int == sp && l == sl && p <= evs@.len() && l <= bnd,
                (Result::Err(a), Result::Err(b)) => a == b && abort_within(a, bnd),
                _ => false,
            }
        }),
    decreases evs@.len() - i,
{
    if i >= evs.len() {
        return Ok((acc, i, last));
    }
    let off = evs[i].offset;
    proof {
        assert(lexed_views(evs@)[i as int] == evs@[i as int]@);
    }
    match &evs[i].event {
        MdEvent::Start(MdTag::List) => {
            if is_prefix {
                Ok((acc, i, off))
            } else {
                Err(SummaryAbort::SuffixList { offset: off })
            }
        },
        MdEvent::Start(MdTag::Heading(lv)) => {
            if *lv == 1 {
                if is_prefix {
                    Ok((acc, i, off))
                } else {
                    Err(SummaryAbort::SuffixList { offset: off })
                }
            } else {
                exec_parse_affix(evs, i + 1, off, is_prefix, acc, Ghost(bnd))
            }
        },
        MdEvent::Start(MdTag::Link { dest, .. }) => {
            let (link, j) = exec_parse_link(evs, i + 1, dest);
            let p = if j < i + 1 {
                i + 1
            } else {
                j
            };
            let ghost old_views = items_views(acc@);
            let mut acc2 = acc;
            let ghost lv = link@;
            acc2.push(SummaryItem::Link(link));
            proof {
                assert(items_views(acc2@) =~= old_views.push(SummaryItemView::Link(lv)));
            }
            exec_parse_affix(evs, p, off, is_prefix, acc2, Ghost(bnd))
        },
        MdEvent::Rule => {
            let ghost old_views = items_views(acc@);
            let mut acc2 = acc;
            acc2.push(SummaryItem::Separator);
            proof {
                assert(items_views(acc2@) =~= old_views.push(SummaryItemView::Separator));
            }
            exec_parse_affix(evs, i + 1, off, is_prefix, acc2, Ghost(bnd))
        },
        _ => exec_parse_affix(evs, i + 1, off, is_prefix, acc, Ghost(bnd)),
    }
}

/// The low 32 bits of `k`, plus one, wrapping: the sibling index pushed for
/// the `k+1`-th numbered item of a level.
fn sibling_number_exec(k: usize) -> (r: u32)
    ensures
        r == sibling_number(k as int),
{
    let t64: u64 = (k as u64) % 0x1_0000_0000u64;
    let t: u32 = t64 as u32;
    let r = t.wrapping_add(1);
    proof {
        assert(t == k as int % 0x1_0000_0000);
        if t == 0xFFFF_FFFFu32 {
            assert((t + 1) % 0x1_0000_0000 == 0);
        }
        assert(r == sibling_number(k as int));
    }
    r
}

/// `a + b`, wrapping, matching [`wrap_add_u32`].
fn wrap_add_exec(a: u32, b: u32) -> (r: u32)
    ensures
        r == wrap_add_u32(a, b),
{
    a.wrapping_add(b)
}

/// A copy of a vector of numbers.
fn clone_u32s(v: &Vec<u32>) -> (r: Vec<u32>)
    ensures
        r@ == v@,
{
    let mut out: Vec<u32> = Vec::new();
    let mut k: usize = 0;
    while k < v.len()
        invariant
            k <= v@.len(),
            out@ == v@.take(k as int),
        decreases v@.len() - k,
    {
        out.push(v[k]);
        k = k + 1;
    }
    proof {
        assert(v@.take(v@.len() as int) =~= v@);
    }
    out
}

/// One nested list item.
fn exec_parse_nested_item(
    evs: &Vec<LexedEvent>,
    i: usize,
    last: usize,
    parent: &Vec<u32>,
    k: usize,
    Ghost(bnd): Ghost<int>,
) -> (r: Result<(SummaryItem, usize, usize), SummaryAbort>)
    requires
        i <= evs@.len(),
        last <= bnd,
        offsets_within(lexed_views(evs@), bnd),
    ensures
        ({
            let s = spec_parse_nested_item(lexed_views(evs@), i as int, last, parent@, k as int);
            match (r, s) {
                (Result::Ok((it, p, l)), Result::Ok((sit, sp, sl))) => item_view(it) == sit && p
                    as int == sp && l == sl && p <= evs@.len() && l <= bnd && item_view(it) is Link
                    && item_view(it)->Link_0.number is Some,
                (Result::Err(a), Result::Err(b)) => a == b && abort_within(a, bnd),
                _ => false,
            }
        }),
    decreases evs@.len() - i,
{
    if i >= evs.len() {
        return Err(SummaryAbort::NestedNotLink { offset: last });
    }
    let off = evs[i].offset;
    proof {
        assert(lexed_views(evs@)[i as int] == evs@[i as int]@);
    }
    match &evs[i].event {
        MdEvent::Start(MdTag::Paragraph) => exec_parse_nested_item(
            evs,
            i + 1,
            off,
            parent,
            k,
            Ghost(bnd),
        ),
        MdEvent::Start(MdTag::Link { dest, .. }) => {
            let (l0, j) = exec_parse_link(evs, i + 1, dest);
            let mut num = clone_u32s(parent);
            num.push(sibling_number_exec(k));
            let link = Link {
                name: l0.name,
                location: l0.location,
                number: Some(SectionNumber(num)),
                nested_items: l0.nested_items,
            };
            let p = if j < i + 1 {
                i + 1
            } else {
                j
            };
            Ok((SummaryItem::Link(link), p, off))
        },
        _ => Err(SummaryAbort::NestedNotLink { offset: off }),
    }
}

/// The index of the last link among the first `k` items, if any.
fn last_link_upto(items: &Vec<SummaryItem>, k: usize) -> (r: Option<usize>)
    requires
        k <= items@.len(),
    ensures
        ({
            let s = spec_find_last_link(items_views(items@).take(k as int));
            match (r, s) {
                (Option::Some(ix), Option::Some(sx)) => ix as int == sx && ix < k,
                (Option::None, Option::None) => true,
                _ => false,
            }
        }),
    decreases k,
{
    proof {
        assert(items_views(items@).take(k as int).len() == k);
    }
    if k == 0 {
        return None;
    }
    proof {
        assert(items_views(items@).take(k as int).last() == item_view(items@[k - 1]));
        assert(items_views(items@).take(k as int).drop_last() =~= items_views(items@).take(
            k - 1 as int,
        ));
    }
    match &items[k - 1] {
        SummaryItem::Link(_) => Some(k - 1),
        _ => last_link_upto(items, k - 1),
    }
}

/// The index of the last link in `items`, if any: where a nested list will
/// attach its sub-chapters.
pub fn get_last_link(items: &Vec<SummaryItem>) -> (r: Option<usize>)
    ensures
        ({
            let s = spec_find_last_link(items_views(items@));
            match (r, s) {
                (Option::Some(ix), Option::Some(sx)) => ix as int == sx && ix < items@.len(),
                (Option::None, Option::None) => true,
                _ => false,
            }
        }),
{
    proof {
        assert(items_views(items@).take(items@.len() as int) =~= items_views(items@));
    }
    last_link_upto(items, items.len())
}

/// One level of nested numbered items.
fn exec_parse_nested_numbered(
    evs: &Vec<LexedEvent>,
    i: usize,
    last: usize,
    parent: &Vec<u32>,
    acc: Vec<SummaryItem>,
    Ghost(bnd): Ghost<int>,
) -> (r: Result<(Vec<SummaryItem>, usize, usize), SummaryAbort>)
    requires
        i <= evs@.len(),
        last <= bnd,
        offsets_within(lexed_views(evs@), bnd),
        all_links_numbered(items_views(acc@)),
    ensures
        ({
            let s = spec_parse_nested_numbered(
                lexed_views(evs@),
                i as int,
                last,
                parent@,
                items_views(acc@),
            );
            match (r, s) {
                (Result::Ok((v, p, l)), Result::Ok((sv, sp, sl))) => items_views(v@) == sv && p
                    as int == sp && l == sl && p <= evs@.len() && l <= bnd && all_links_numbered(
                    items_views(v@),
                ),
                (Result::Err(a), Result::Err(b)) => a == b && abort_within(a, bnd),
                _ => false,
            }
        }),
    decreases evs@.len() - i,
{
    if i >= evs.len() {
        return Ok((acc, i, last));
    }
    let off = evs[i].offset;
    proof {
        assert(lexed_views(evs@)[i as int] == evs@[i as int]@);
    }
    match &evs[i].event {
        MdEvent::Start(MdTag::Item) => {
            match exec_parse_nested_item(evs, i + 1, off, parent, acc.len(), Ghost(bnd)) {
                Err(a) => Err(a),
                Ok((item, j, last2)) => {
                    let p = if j < i + 1 {
                        i + 1
                    } else {
                        j
                    };
                    let ghost old_views = items_views(acc@);
                    let ghost iv = item_view(item);
                    let mut acc2 = acc;
                    acc2.push(item);
                    proof {
                        assert(items_views(acc2@) =~= old_views.push(iv));
                    }
                    exec_parse_nested_numbered(evs, p, last2, parent, acc2, Ghost(bnd))
                },
            }
        },
        MdEvent::Start(MdTag::List) => {
            if acc.len() == 0 {
                proof {
                    assert(items_views(acc@).len() == 0);
                }
                exec_parse_nested_numbered(evs, i + 1, off, parent, acc, Ghost(bnd))
            } else {
                proof {
                    assert(items_views(acc@).len() == acc@.len());
                    lemma_find_last_link(items_views(acc@));
                }
                match get_last_link(&acc) {
                    None => Err(SummaryAbort::NoLastLink),
                    Some(ix) => {
                        let parent2: Vec<u32> = match &acc[ix] {
                            SummaryItem::Link(l) => match &l.number {
                                Some(sn) => clone_u32s(&sn.0),
                                None => {
                                    proof {
                                        assert(false);
                                    }
                                    unreached()
                                },
                            },
                            _ => {
                                proof {
                                    assert(items_views(acc@)[ix as int] == item_view(
                                        acc@[ix as int],
                                    ));
                                    assert(false);
                                }
                                unreached()
                            },
                        };
                        proof {
                            assert(items_views(Seq::<SummaryItem>::empty())
                                =~= Seq::<SummaryItemView>::empty());
                        }
                        match exec_parse_nested_numbered(
                            evs,
                            i + 1,
                            off,
                            &parent2,
                            Vec::new(),
                            Ghost(bnd),
                        ) {
                            Err(a) => Err(a),
                            Ok((sub, j, last2)) => {
                                let p = if j < i + 1 {
                                    i + 1
                                } else {
                                    j
                                };
                                let ghost old_views = items_views(acc@);
                                let ghost sub_views = items_views(sub@);
                                let mut acc2 = acc;
                                let item = acc2.remove(ix);
                                let link2 = match item {
                                    SummaryItem::Link(l) => Link {
                                        name: l.name,
                                        location: l.location,
                                        number: l.number,
                                        nested_items: sub,
                                    },
                                    _ => {
                                        proof {
                                            assert(false);
                                        }
                                        unreached()
                                    },
                                };
                                let ghost l2v = link_view(link2);
                                acc2.insert(ix, SummaryItem::Link(link2));
                                proof {
                                    lemma_seq_items_views(link2.nested_items@);
                                    assert(items_views(acc2@) =~= old_views.update(
                                        ix as int,
                                        SummaryItemView::Link(l2v),
                                    ));
                                }
                                exec_parse_nested_numbered(evs, p, last2, parent, acc2, Ghost(bnd))
                            },
                        }
                    },
                }
            }
        },
        MdEvent::End(MdTag::List) => Ok((acc, i + 1, off)),
        _ => exec_parse_nested_numbered(evs, i + 1, off, parent, acc, Ghost(bnd)),
    }
}

/// A copy of an optional string.
fn clone_opt_string(o: &Option<String>) -> (r: Option<String>)
    ensures
        opt_str_view(r) == opt_str_view(*o),
{
    match o {
        Some(s) => Some(s.clone()),
        None => None,
    }
}

/// One item with its section-number entry at `level` raised by `by`.
fn update_item_ref(x: &SummaryItem, level: usize, by: u32) -> (r: SummaryItem)
    ensures
        item_view(r) == spec_update_item(item_view(*x), level as int, by),
    decreases *x,
{
    match x {
        SummaryItem::Separator => SummaryItem::Separator,
        SummaryItem::PartTitle(t) => SummaryItem::PartTitle(t.clone()),
        SummaryItem::Link(l) => {
            let number = match &l.number {
                Some(sn) => {
                    let mut nv = clone_u32s(&sn.0);
                    if level < nv.len() {
                        let cur = nv[level];
                        let b = wrap_add_exec(cur, by);
                        nv.remove(level);
                        nv.insert(level, b);
                        proof {
                            assert(nv@ =~= sn.0@.update(
                                level as int,
                                wrap_add_u32(sn.0@[level as int], by),
                            ));
                        }
                    }
                    Some(SectionNumber(nv))
                },
                None => None,
            };
            let nested = update_items_from(&l.nested_items, 0, level, by);
            let out = SummaryItem::Link(
                Link {
                    name: l.name.clone(),
                    location: clone_opt_string(&l.location),
                    number,
                    nested_items: nested,
                },
            );
            proof {
                lemma_seq_items_views(nested@);
                lemma_update_numbers_rec(items_views(l.nested_items@), level as int, by);
                lemma_seq_items_views(l.nested_items@);
                assert(items_views(nested@) =~= spec_update_numbers(
                    items_views(l.nested_items@),
                    level as int,
                    by,
                ));
            }
            out
        },
    }
}

/// The items of `v` from position `k` on, each updated by [`update_item_ref`].
fn update_items_from(v: &Vec<SummaryItem>, k: usize, level: usize, by: u32) -> (r: Vec<SummaryItem>)
    requires
        k <= v@.len(),
    ensures
        r@.len() + k == v@.len(),
        forall|j: int|
            0 <= j < r@.len() ==> item_view(#[trigger] r@[j]) == spec_update_item(
                item_view(v@[k + j]),
                level as int,
                by,
            ),
    decreases *v, v@.len() - k,
{
    if k >= v.len() {
        Vec::new()
    } else {
        proof {
            assert(decreases_to!(*v => v@));
            assert(decreases_to!(v@ => v@[k as int]));
        }
        let first = update_item_ref(&v[k], level, by);
        let rest = update_items_from(v, k + 1, level, by);
        let mut out: Vec<SummaryItem> = Vec::new();
        out.push(first);
        let mut rest2 = rest;
        out.append(&mut rest2);
        out
    }
}

/// Add `by` to the section-number entry at `level` of every link among
/// `sections`, nested links included. Rebases a freshly parsed batch so that
/// root numbering continues across lists and parts.
pub fn update_section_numbers(sections: &mut Vec<SummaryItem>, level: usize, by: u32)
    ensures
        items_views(final(sections)@) == spec_update_numbers(
            items_views(old(sections)@),
            level as int,
            by,
        ),
{
    let out = update_items_from(sections, 0, level, by);
    proof {
        assert(items_views(out@) =~= spec_update_numbers(
            items_views(sections@),
            level as int,
            by,
        ));
    }
    *sections = out;
}

/// Skip events up to and through the end tag matching `t`.
fn exec_drain(evs: &Vec<LexedEvent>, i: usize, last: usize, t: &MdTag, Ghost(bnd): Ghost<int>) -> (r:
    (usize, usize))
    requires
        i <= evs@.len(),
        last <= bnd,
        offsets_within(lexed_views(evs@), bnd),
    ensures
        ({
            let (sp, sl) = spec_drain_until_end(lexed_views(evs@), i as int, last, t@);
            r.0 as int == sp && r.1 == sl && r.0 <= evs@.len() && r.1 <= bnd
        }),
    decreases evs@.len() - i,
{
    if i >= evs.len() {
        return (i, last);
    }
    let off = evs[i].offset;
    proof {
        assert(lexed_views(evs@)[i as int] == evs@[i as int]@);
    }
    match &evs[i].event {
        MdEvent::End(u) => {
            if tag_matches(u, t) {
                (i + 1, off)
            } else {
                exec_drain(evs, i + 1, off, t, Ghost(bnd))
            }
        },
        _ => exec_drain(evs, i + 1, off, t, Ghost(bnd)),
    }
}

/// One numbered block.
fn exec_parse_numbered(
    evs: &Vec<LexedEvent>,
    i: usize,
    last: usize,
    first: bool,
    count: u32,
    acc: Vec<SummaryItem>,
    Ghost(bnd): Ghost<int>,
) -> (r: Result<(Vec<SummaryItem>, usize, usize, u32), SummaryAbort>)
    requires
        i <= evs@.len(),
        last <= bnd,
        offsets_within(lexed_views(evs@), bnd),
    ensures
        ({
            let s = spec_parse_numbered(
                lexed_views(evs@),
                i as int,
                last,
                first,
                count,
                items_views(acc@),
            );
            match (r, s) {
                (Result::Ok((v, p, l, c)), Result::Ok((sv, sp, sl, sc))) => items_views(v@) == sv
                    && p as int == sp && l == sl && c == sc && p <= evs@.len() && l <= bnd,
                (Result::Err(a), Result::Err(b)) => a == b && abort_within(a, bnd),
                _ => false,
            }
        }),
    decreases evs@.len() - i,
{
    if i >= evs.len() {
        return Ok((acc, i, last, count));
    }
    let off = evs[i].offset;
    proof {
        assert(lexed_views(evs@)[i as int] == evs@[i as int]@);
    }
    match &evs[i].event {
        MdEvent::Start(t) => {
            match t {
                MdTag::Paragraph => {
                    if first {
                        exec_parse_numbered(evs, i + 1, off, false, count, acc, Ghost(bnd))
                    } else {
                        Ok((acc, i, off, count))
                    }
                },
                MdTag::Heading(lv) => {
                    if *lv == 1 {
                        Ok((acc, i, off, count))
                    } else {
                        let (j, last2) = exec_drain(evs, i + 1, off, t, Ghost(bnd));
                        let p = if j < i + 1 {
                            i + 1
                        } else {
                            j
                        };
                        exec_parse_numbered(evs, p, last2, false, count, acc, Ghost(bnd))
                    }
                },
                MdTag::List => {
                    let empty_parent: Vec<u32> = Vec::new();
                    proof {
                        assert(items_views(Seq::<SummaryItem>::empty())
                            =~= Seq::<SummaryItemView>::empty());
                    }
                    match exec_parse_nested_numbered(
                        evs,
                        i,
                        off,
                        &empty_parent,
                        Vec::new(),
                        Ghost(bnd),
                    ) {
                        Err(a) => Err(a),
                        Ok((bunch, j, last2)) => {
                            let p = if j < i + 1 {
                                i + 1
                            } else {
                                j
                            };
                            let ghost bunch_views = items_views(bunch@);
                            let mut bunch2 = update_items_from(&bunch, 0, 0, count);
                            proof {
                                assert(items_views(bunch2@) =~= spec_update_numbers(
                                    bunch_views,
                                    0,
                                    count,
                                ));
                            }
                            let t64: u64 = (bunch.len() as u64) % 0x1_0000_0000u64;
                            let count2 = wrap_add_exec(count, t64 as u32);
                            proof {
                                assert(t64 as u32 == trunc_u32(bunch@.len() as int));
                            }
                            let ghost old_views = items_views(acc@);
                            let mut acc2 = acc;
                            acc2.append(&mut bunch2);
                            proof {
                                assert(items_views(acc2@) =~= old_views + spec_update_numbers(
                                    bunch_views,
                                    0,
                                    count,
                                ));
                            }
                            exec_parse_numbered(evs, p, last2, false, count2, acc2, Ghost(bnd))
                        },
                    }
                },
                _ => {
                    let (j, last2) = exec_drain(evs, i + 1, off, t, Ghost(bnd));
                    let p = if j < i + 1 {
                        i + 1
                    } else {
                        j
                    };
                    exec_parse_numbered(evs, p, last2, false, count, acc, Ghost(bnd))
                },
            }
        },
        MdEvent::Rule => {
            let ghost old_views = items_views(acc@);
            let mut acc2 = acc;
            acc2.push(SummaryItem::Separator);
            proof {
                assert(items_views(acc2@) =~= old_views.push(SummaryItemView::Separator));
            }
            exec_parse_numbered(evs, i + 1, off, false, count, acc2, Ghost(bnd))
        },
        _ => exec_parse_numbered(evs, i + 1, off, false, count, acc, Ghost(bnd)),
    }
}

/// The numbered section, part by part.
fn exec_parse_parts(
    evs: &Vec<LexedEvent>,
    i: usize,
    last: usize,
    count: u32,
    acc: Vec<SummaryItem>,
    Ghost(bnd): Ghost<int>,
) -> (r: Result<(Vec<SummaryItem>, usize, usize), SummaryAbort>)
    requires
        i <= evs@.len(),
        last <= bnd,
        offsets_within(lexed_views(evs@), bnd),
    ensures
        ({
            let s = spec_parse_parts(lexed_views(evs@), i as int, last, count, items_views(acc@));
            match (r, s) {
                (Result::Ok((v, p, l)), Result::Ok((sv, sp, sl))) => items_views(v@) == sv && p
                    as int == sp && l == sl && p <= evs@.len() && l <= bnd,
                (Result::Err(a), Result::Err(b)) => a == b && abort_within(a, bnd),
                _ => false,
            }
        }),
    decreases evs@.len() - i,
{
    if i >= evs.len() {
        return Ok((acc, i, last));
    }
    let off = evs[i].offset;
    proof {
        assert(lexed_views(evs@)[i as int] == evs@[i as int]@);
    }
    let cls: u8 = match &evs[i].event {
        MdEvent::Start(MdTag::Paragraph) => 1,
        MdEvent::Start(MdTag::Heading(lv)) => if *lv == 1 {
            2
        } else {
            0
        },
        _ => 0,
    };
    if cls == 1 {
        Ok((acc, i, off))
    } else if cls == 2 {
        let (txt, j0) = exec_collect_text(evs, i + 1, CollectKind::HeadingEnd);
        let j = if j0 < i + 1 {
            i + 1
        } else {
            j0
        };
        proof {
            assert(items_views(Seq::<SummaryItem>::empty()) =~= Seq::<SummaryItemView>::empty());
        }
        match exec_parse_numbered(evs, j, off, true, count, Vec::new(), Ghost(bnd)) {
            Err(a) => Err(a),
            Ok((items, j2, last2, count2)) => {
                let p = if j2 < i + 1 {
                    i + 1
                } else {
                    j2
                };
                let ghost old_views = items_views(acc@);
                let ghost new_views = items_views(items@);
                let mut acc2 = acc;
                acc2.push(SummaryItem::PartTitle(txt));
                let mut items2 = items;
                acc2.append(&mut items2);
                proof {
                    assert(items_views(acc2@) =~= old_views.push(
                        SummaryItemView::PartTitle(txt@),
                    ) + new_views);
                }
                exec_parse_parts(evs, p, last2, count2, acc2, Ghost(bnd))
            },
        }
    } else {
        proof {
            assert(items_views(Seq::<SummaryItem>::empty()) =~= Seq::<SummaryItemView>::empty());
        }
        match exec_parse_numbered(evs, i, off, true, count, Vec::new(), Ghost(bnd)) {
            Err(a) => Err(a),
            Ok((items, j2, last2, count2)) => {
                let p = if j2 < i + 1 {
                    i + 1
                } else {
                    j2
                };
                let ghost old_views = items_views(acc@);
                let ghost new_views = items_views(items@);
                let mut acc2 = acc;
                let mut items2 = items;
                acc2.append(&mut items2);
                proof {
                    assert(items_views(acc2@) =~= old_views + new_views);
                }
                exec_parse_parts(evs, p, last2, count2, acc2, Ghost(bnd))
            },
        }
    }
}

/// Parse a `SUMMARY.md` text into a [`Summary`], or report where and why the
/// text was rejected. The result is exactly what [`spec_parse_summary`]
/// describes for the text's event stream.
pub fn parse_summary(text: &str) -> (r: Result<Summary, SummaryError>)
    ensures
        ({
            let s = spec_parse_summary(
                crate::events::summary_events(text@),
                vstd::utf8::encode_utf8(text@),
            );
            match (r, s) {
                (Result::Ok(sum), Result::Ok(sv)) => sum@ == sv,
                (Result::Err(e), Result::Err(se)) => e == se,
                _ => false,
            }
        }),
{
    let evs = lex_summary(text);
    let bytes = text.as_bytes_vec();
    let ghost bnd = bytes@.len() as int;
    proof {
        assert forall|k: int|
            0 <= k < lexed_views(evs@).len() implies (#[trigger] lexed_views(evs@)[k]).offset
            <= bnd by {
            assert(evs@[k].offset <= vstd::utf8::encode_utf8(text@).len());
        }
        assert(items_views(Seq::<SummaryItem>::empty()) =~= Seq::<SummaryItemView>::empty());
    }
    let (title, i1, l1) = exec_parse_title(&evs, 0, 0, Ghost(bnd));
    match exec_parse_affix(&evs, i1, l1, true, Vec::new(), Ghost(bnd)) {
        Err(a) => Err(error_of_abort(a, &bytes)),
        Ok((prefix, i2, l2)) => match exec_parse_parts(&evs, i2, l2, 0, Vec::new(), Ghost(bnd)) {
            Err(a) => Err(error_of_abort(a, &bytes)),
            Ok((numbered, i3, l3)) => match exec_parse_affix(
                &evs,
                i3,
                l3,
                false,
                Vec::new(),
                Ghost(bnd),
            ) {
                Err(a) => Err(error_of_abort(a, &bytes)),
                Ok((suffix, _, _)) => Ok(
                    Summary {
                        title,
                        prefix_chapters: prefix,
                        numbered_chapters: numbered,
                        suffix_chapters: suffix,
                    },
                ),
            },
        },
    }
}

} // verus!
