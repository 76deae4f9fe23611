//! The flat Markdown event stream that the summary parser and the transpiler
//! consume. The stream itself comes from the `pulldown_cmark` tokenizer
//! through the two trusted lexers at the bottom of this file; everything that
//! interprets the stream is verified against the names `summary_events` and
//! `markup_events` given to those lexers' results.

use pulldown_cmark::{CodeBlockKind, Event, LinkType, Tag};
use vstd::prelude::*;
use vstd::utf8::encode_utf8;

verus! {

/// A start/end tag of one Markdown construct. Constructs the library never
/// interprets are folded into `Other`, told apart by a fixed code so that a
/// start can be paired with its end.
pub enum MdTag {
    Paragraph,
    /// A heading with its level, 1 through 6.
    Heading(u32),
    /// A link with its destination; `inline` is true for `[text](dest)` links.
    Link { inline: bool, dest: String },
    /// An image with its destination.
    Image(String),
    List,
    Item,
    /// A fenced code block with its info string.
    CodeFenced(String),
    CodeIndented,
    Table,
    /// Any other construct, with a code that identifies its kind.
    Other(u32),
}

/// One event of the flat Markdown stream.
pub enum MdEvent {
    Start(MdTag),
    End(MdTag),
    Text(String),
    Code(String),
    Html(String),
    SoftBreak,
    HardBreak,
    Rule,
    /// An event the library never interprets (footnote reference, task marker).
    Other,
}

/// An event paired with its byte offset into the source text.
pub struct LexedEvent {
    pub event: MdEvent,
    pub offset: usize,
}

/// Mathematical image of an [`MdTag`].
pub enum MdTagView {
    Paragraph,
    Heading(u32),
    Link { inline: bool, dest: Seq<char> },
    Image(Seq<char>),
    List,
    Item,
    CodeFenced(Seq<char>),
    CodeIndented,
    Table,
    Other(u32),
}

/// Mathematical image of an [`MdEvent`].
pub enum MdEventView {
    Start(MdTagView),
    End(MdTagView),
    Text(Seq<char>),
    Code(Seq<char>),
    Html(Seq<char>),
    SoftBreak,
    HardBreak,
    Rule,
    Other,
}

/// Mathematical image of a [`LexedEvent`].
pub struct LexedEventView {
    pub event: MdEventView,
    pub offset: usize,
}

impl View for MdTag {
    type V = MdTagView;

    open spec fn view(&self) -> MdTagView {
        match self {
            MdTag::Paragraph => MdTagView::Paragraph,
            MdTag::Heading(l) => MdTagView::Heading(*l),
            MdTag::Link { inline, dest } => MdTagView::Link { inline: *inline, dest: dest@ },
            MdTag::Image(d) => MdTagView::Image(d@),
            MdTag::List => MdTagView::List,
            MdTag::Item => MdTagView::Item,
            MdTag::CodeFenced(i) => MdTagView::CodeFenced(i@),
            MdTag::CodeIndented => MdTagView::CodeIndented,
            MdTag::Table => MdTagView::Table,
            MdTag::Other(c) => MdTagView::Other(*c),
        }
    }
}

impl View for MdEvent {
    type V = MdEventView;

    open spec fn view(&self) -> MdEventView {
        match self {
            MdEvent::Start(t) => MdEventView::Start(t@),
            MdEvent::End(t) => MdEventView::End(t@),
            MdEvent::Text(s) => MdEventView::Text(s@),
            MdEvent::Code(s) => MdEventView::Code(s@),
            MdEvent::Html(s) => MdEventView::Html(s@),
            MdEvent::SoftBreak => MdEventView::SoftBreak,
            MdEvent::HardBreak => MdEventView::HardBreak,
            MdEvent::Rule => MdEventView::Rule,
            MdEvent::Other => MdEventView::Other,
        }
    }
}

impl View for LexedEvent {
    type V = LexedEventView;

    open spec fn view(&self) -> LexedEventView {
        LexedEventView { event: self.event@, offset: self.offset }
    }
}

/// The views of a vector of lexed events.
pub open spec fn lexed_views(v: Seq<LexedEvent>) -> Seq<LexedEventView> {
    v.map_values(|e: LexedEvent| e@)
}

/// The views of a vector of events.
pub open spec fn event_views(v: Seq<MdEvent>) -> Seq<MdEventView> {
    v.map_values(|e: MdEvent| e@)
}

/// Whether an end tag closes a start tag: same construct kind, and for
/// headings and uninterpreted constructs the same level or code. The
/// tokenizer emits balanced start/end pairs whose payloads agree, so
/// destinations and info strings need not be compared.
pub open spec fn spec_tag_matches(a: MdTagView, b: MdTagView) -> bool {
    match (a, b) {
        (MdTagView::Paragraph, MdTagView::Paragraph) => true,
        (MdTagView::Heading(x), MdTagView::Heading(y)) => x == y,
        (MdTagView::Link { .. }, MdTagView::Link { .. }) => true,
        (MdTagView::Image(_), MdTagView::Image(_)) => true,
        (MdTagView::List, MdTagView::List) => true,
        (MdTagView::Item, MdTagView::Item) => true,
        (MdTagView::CodeFenced(_), MdTagView::CodeFenced(_)) => true,
        (MdTagView::CodeIndented, MdTagView::CodeIndented) => true,
        (MdTagView::Table, MdTagView::Table) => true,
        (MdTagView::Other(x), MdTagView::Other(y)) => x == y,
        _ => false,
    }
}

/// Executable form of [`spec_tag_matches`].
pub fn tag_matches(a: &MdTag, b: &MdTag) -> (r: bool)
    ensures
        r == spec_tag_matches(a@, b@),
{
    match (a, b) {
        (MdTag::Paragraph, MdTag::Paragraph) => true,
        (MdTag::Heading(x), MdTag::Heading(y)) => *x == *y,
        (MdTag::Link { .. }, MdTag::Link { .. }) => true,
        (MdTag::Image(_), MdTag::Image(_)) => true,
        (MdTag::List, MdTag::List) => true,
        (MdTag::Item, MdTag::Item) => true,
        (MdTag::CodeFenced(_), MdTag::CodeFenced(_)) => true,
        (MdTag::CodeIndented, MdTag::CodeIndented) => true,
        (MdTag::Table, MdTag::Table) => true,
        (MdTag::Other(x), MdTag::Other(y)) => *x == *y,
        _ => false,
    }
}

#[verifier::external_type_specification]
#[verifier::external_body]
pub struct ExTag<'a>(Tag<'a>);

#[verifier::external_type_specification]
#[verifier::external_body]
pub struct ExEvent<'a>(Event<'a>);

/// Relies on `pulldown_cmark::Tag`: carries the payload-bearing tag
/// variants over to the library's own tag type, keeping the heading level,
/// the link or image destination and the fenced info string.
#[verifier::external_body]
fn conv_tag(t: Tag<'_>) -> MdTag {
    match t {
        Tag::Heading(l, _, _) => MdTag::Heading(l as u32),
        Tag::Link(lt, d, _) => MdTag::Link { inline: lt == LinkType::Inline, dest: d.into_string() },
        Tag::Image(_, d, _) => MdTag::Image(d.into_string()),
        Tag::CodeBlock(CodeBlockKind::Fenced(i)) => MdTag::CodeFenced(i.into_string()),
        Tag::CodeBlock(CodeBlockKind::Indented) => MdTag::CodeIndented,
        other => conv_plain_tag(other),
    }
}

/// Relies on `pulldown_cmark::Tag`: the payload-free tag variants, each
/// mapped to its own constructor or told apart by a fixed code.
#[verifier::external_body]
fn conv_plain_tag(t: Tag<'_>) -> MdTag {
    match t {
        Tag::Paragraph => MdTag::Paragraph,
        Tag::List(_) => MdTag::List,
        Tag::Item => MdTag::Item,
        Tag::Table(_) => MdTag::Table,
        Tag::BlockQuote => MdTag::Other(1),
        Tag::TableHead => MdTag::Other(2),
        Tag::TableRow => MdTag::Other(3),
        Tag::TableCell => MdTag::Other(4),
        Tag::Emphasis => MdTag::Other(5),
        Tag::Strong => MdTag::Other(6),
        Tag::Strikethrough => MdTag::Other(7),
        _ => MdTag::Other(8),
    }
}

/// Relies on `pulldown_cmark::Event`: carries each event variant over to the
/// library's own event type, taking text, code and raw-HTML payloads as
/// owned strings.
#[verifier::external_body]
fn conv_event(ev: Event<'_>) -> MdEvent {
    match ev {
        Event::Start(t) => MdEvent::Start(conv_tag(t)),
        Event::End(t) => MdEvent::End(conv_tag(t)),
        Event::Text(s) => MdEvent::Text(s.into_string()),
        Event::Code(s) => MdEvent::Code(s.into_string()),
        Event::Html(s) => MdEvent::Html(s.into_string()),
        Event::SoftBreak => MdEvent::SoftBreak,
        Event::HardBreak => MdEvent::HardBreak,
        Event::Rule => MdEvent::Rule,
        Event::FootnoteReference(_) => MdEvent::Other,
        Event::TaskListMarker(_) => MdEvent::Other,
    }
}

/// The flat event stream that the tokenizer produces for a summary text,
/// with each event's byte offset. A pure function of the text.
pub uninterp spec fn summary_events(s: Seq<char>) -> Seq<LexedEventView>;

/// The flat event stream that the tokenizer produces for chapter Markdown
/// with tables, footnotes, strikethrough and task lists enabled, and smart
/// punctuation when `smart` holds. A pure function of the text and the flag.
pub uninterp spec fn markup_events(s: Seq<char>, smart: bool) -> Seq<MdEventView>;

/// Relies on `pulldown_cmark::Parser::new` and `OffsetIter`: tokenizes the
/// summary text into the flat event stream, each event with the byte offset
/// of its source range. The stream is a pure function of the text, named
/// `summary_events`; every offset lies within the UTF-8 length of the text.
#[verifier::external_body]
pub(crate) fn lex_summary(text: &str) -> (r: Vec<LexedEvent>)
    ensures
        lexed_views(r@) == summary_events(text@),
        forall|k: int| 0 <= k < r@.len() ==> (#[trigger] r@[k]).offset <= encode_utf8(text@).len(),
{
    pulldown_cmark::Parser::new(text)
        .into_offset_iter()
        .map(|(ev, range)| LexedEvent { event: conv_event(ev), offset: range.start })
        .collect()
}

/// Relies on `pulldown_cmark::Parser::new_ext` with tables, footnotes,
/// strikethrough and task lists enabled, and smart punctuation when `smart`
/// holds: tokenizes chapter Markdown into the flat event stream, a pure
/// function of the text and the flag, named `markup_events`.
#[verifier::external_body]
pub(crate) fn lex_markup(text: &str, smart: bool) -> (r: Vec<MdEvent>)
    ensures
        event_views(r@) == markup_events(text@, smart),
{
    let mut opts = pulldown_cmark::Options::empty();
    opts.insert(pulldown_cmark::Options::ENABLE_TABLES);
    opts.insert(pulldown_cmark::Options::ENABLE_FOOTNOTES);
    opts.insert(pulldown_cmark::Options::ENABLE_STRIKETHROUGH);
    opts.insert(pulldown_cmark::Options::ENABLE_TASKLISTS);
    if smart {
        opts.insert(pulldown_cmark::Options::ENABLE_SMART_PUNCTUATION);
    }
    pulldown_cmark::Parser::new_ext(text, opts).map(conv_event).collect()
}

} // verus!
