//! The library's general laws, stated and proved once: parsing is
//! deterministic, splitting what `take_lines` built recovers the selected
//! lines, and section numbers run gapless from one upward at every level
//! and straight across part boundaries.

use vstd::prelude::*;

use crate::book::BookItemView;
use crate::events::{LexedEventView, MdEventView, MdTagView};
use crate::loader::{spec_load_item, spec_load_items, FileOutcomeView};
use crate::strings::{spec_join, spec_lines, spec_line_bounds, spec_take_lines, strip_cr};
use crate::summary::{
    lemma_update_numbers_rec, sibling_number, spec_find_last_link, spec_parse_affix,
    spec_parse_nested_item, spec_parse_nested_numbered, spec_parse_numbered, spec_parse_parts,
    spec_parse_summary, spec_parse_title, spec_update_item, spec_update_numbers,
    spec_update_numbers_rec, step_to, trunc_u32, wrap_add_u32, LinkView, SummaryError,
    SummaryItemView, SummaryView,
};
use crate::text::{matches_at, spec_find_from};
use vstd::arithmetic::div_mod::{lemma_add_mod_noop, lemma_mod_twice};

verus! {

broadcast use
    vstd::seq::axiom_seq_index_decreases,
    vstd::seq::axiom_seq_subrange_decreases;

/// Parsing is deterministic: the summary is a function of the text's event
/// stream and bytes, so two parses of identical text agree, item for item.
pub proof fn lemma_parse_deterministic(
    evs: Seq<LexedEventView>,
    bytes: Seq<u8>,
    a: Result<SummaryView, SummaryError>,
    b: Result<SummaryView, SummaryError>,
)
    requires
        a == spec_parse_summary(evs, bytes),
        b == spec_parse_summary(evs, bytes),
    ensures
        a == b,
{
}

/// Where `pat` first occurs: the result is in range, a match where it is
/// one, and nothing before it matches.
proof fn lemma_find_props(s: Seq<char>, i: int, pat: Seq<char>)
    requires
        0 <= i <= s.len(),
    ensures
        i <= spec_find_from(s, i, pat) <= s.len(),
        spec_find_from(s, i, pat) < s.len() ==> matches_at(s, spec_find_from(s, i, pat), pat),
        forall|t: int| i <= t < spec_find_from(s, i, pat) ==> !matches_at(s, t, pat),
    decreases s.len() - i,
{
    if i + pat.len() > s.len() {
        assert forall|t: int| i <= t < spec_find_from(s, i, pat) implies !matches_at(s, t, pat) by {
            assert(t + pat.len() > s.len());
        }
    } else if matches_at(s, i, pat) {
    } else {
        lemma_find_props(s, i + 1, pat);
    }
}

/// A one-character pattern matches exactly where that character stands.
proof fn lemma_match_nl(s: Seq<char>, t: int)
    requires
        0 <= t < s.len(),
    ensures
        matches_at(s, t, seq!['\n']) <==> s[t] == '\n',
{
    if s[t] == '\n' {
        assert(s.subrange(t, t + 1) =~= seq!['\n']);
    }
    if matches_at(s, t, seq!['\n']) {
        assert(s.subrange(t, t + 1)[0] == s[t]);
    }
}

/// No line that `spec_lines` yields contains a newline.
proof fn lemma_lines_no_newline(s: Seq<char>)
    ensures
        forall|i: int, t: int|
            0 <= i < spec_lines(s).len() && 0 <= t < spec_lines(s)[i].len() ==> spec_lines(
                s,
            )[i][t] != '\n',
    decreases s.len(),
{
    if s.len() == 0 {
    } else {
        let j = spec_find_from(s, 0, seq!['\n']);
        lemma_find_props(s, 0, seq!['\n']);
        assert forall|t: int| 0 <= t < j implies s[t] != '\n' by {
            lemma_match_nl(s, t);
        }
        if 0 <= j < s.len() {
            lemma_lines_no_newline(s.skip(j + 1));
            assert forall|i: int, t: int|
                0 <= i < spec_lines(s).len() && 0 <= t < spec_lines(s)[i].len() implies spec_lines(
                s,
            )[i][t] != '\n' by {
                if i == 0 {
                    assert(spec_lines(s)[0] == strip_cr(s.take(j)));
                    assert(s.take(j)[t] == s[t]);
                } else {
                    assert(spec_lines(s)[i] == spec_lines(s.skip(j + 1))[i - 1]);
                }
            }
        } else {
            assert forall|i: int, t: int|
                0 <= i < spec_lines(s).len() && 0 <= t < spec_lines(s)[i].len() implies spec_lines(
                s,
            )[i][t] != '\n' by {
                assert(spec_lines(s)[0] == strip_cr(s));
            }
        }
    }
}

/// Splitting a join recovers the lines: when no line contains a newline or
/// ends with a carriage return, and the last line is not empty, `spec_lines`
/// undoes `spec_join` exactly.
pub proof fn lemma_lines_join_round_trip(ls: Seq<Seq<char>>)
    requires
        forall|i: int, t: int|
            #![trigger ls[i][t]]
            0 <= i < ls.len() && 0 <= t < ls[i].len() ==> ls[i][t] != '\n',
        forall|i: int|
            0 <= i < ls.len() ==> ((#[trigger] ls[i]).len() > 0 ==> ls[i].last() != '\r'),
        ls.len() > 0 ==> ls.last().len() > 0,
    ensures
        spec_lines(spec_join(ls)) == ls,
    decreases ls.len(),
{
    if ls.len() == 0 {
        assert(spec_lines(spec_join(ls)) =~= ls);
    } else if ls.len() == 1 {
        let l = ls[0];
        assert(l.len() > 0);
        lemma_find_props(l, 0, seq!['\n']);
        let j = spec_find_from(l, 0, seq!['\n']);
        if j < l.len() {
            lemma_match_nl(l, j);
            assert(false);
        }
        assert(strip_cr(l) == l);
        assert(spec_lines(spec_join(ls)) =~= ls);
    } else {
        let s = spec_join(ls);
        let l0 = ls[0];
        let rest = spec_join(ls.drop_first());
        assert(s == l0 + seq!['\n'] + rest);
        let j = spec_find_from(s, 0, seq!['\n']);
        lemma_find_props(s, 0, seq!['\n']);
        assert(s[l0.len() as int] == '\n');
        lemma_match_nl(s, l0.len() as int);
        if j < l0.len() {
            lemma_match_nl(s, j);
            assert(s[j] == l0[j]);
            assert(false);
        }
        assert(j == l0.len());
        assert(0 <= j < s.len());
        assert(s.take(j) =~= l0);
        assert(strip_cr(l0) == l0);
        assert(s.skip(j + 1) =~= rest);
        lemma_lines_join_round_trip(ls.drop_first());
        assert(spec_lines(s) =~= ls);
    }
}

/// The round trip of a selected line range: splitting what `take_lines`
/// returned yields exactly the selected line subset, provided no selected
/// line ends with a stray carriage return and the last selected line is not
/// empty (both artifacts of unusual input line endings).
pub proof fn lemma_take_lines_round_trip(s: Seq<char>, start: int, end: Option<usize>)
    requires
        0 <= start,
        ({
            let ls = spec_lines(s);
            let (lo, hi) = spec_line_bounds(ls.len() as int, start, end);
            &&& forall|i: int|
                lo <= i < hi ==> ((#[trigger] ls[i]).len() > 0 ==> ls[i].last() != '\r')
            &&& (hi > lo ==> ls[hi - 1].len() > 0)
        }),
    ensures
        ({
            let ls = spec_lines(s);
            let (lo, hi) = spec_line_bounds(ls.len() as int, start, end);
            spec_lines(spec_take_lines(s, start, end)) == ls.subrange(lo, hi)
        }),
{
    let ls = spec_lines(s);
    let (lo, hi) = spec_line_bounds(ls.len() as int, start, end);
    let sel = ls.subrange(lo, hi);
    lemma_lines_no_newline(s);
    assert forall|i: int, t: int|
        #![trigger sel[i][t]]
        0 <= i < sel.len() && 0 <= t < sel[i].len() implies sel[i][t] != '\n' by {
        assert(sel[i] == ls[lo + i]);
    }
    assert forall|i: int|
        0 <= i < sel.len() implies ((#[trigger] sel[i]).len() > 0 ==> sel[i].last() != '\r') by {
        assert(sel[i] == ls[lo + i]);
    }
    lemma_lines_join_round_trip(sel);
}

/// A draft link — one without a location — always loads as a navigation
/// placeholder, at any depth of the tree: it consumes no file content, and
/// the chapter it becomes has the link's name and number, empty content and
/// no path at all (so nothing downstream can name an output file for it);
/// its sub-items load from the same file cursor the link received.
pub proof fn lemma_draft_loads_as_placeholder(
    l: LinkView,
    files: Seq<FileOutcomeView>,
    fi: int,
    parents: Seq<Seq<char>>,
)
    requires
        l.location is None,
        spec_load_item(SummaryItemView::Link(l), files, fi, parents) is Ok,
    ensures
        ({
            let (b, fi2) = spec_load_item(SummaryItemView::Link(l), files, fi, parents)->Ok_0;
            &&& b is Chapter
            &&& b->Chapter_0.path is None
            &&& b->Chapter_0.source_path is None
            &&& b->Chapter_0.content.len() == 0
            &&& b->Chapter_0.name == l.name
            &&& b->Chapter_0.number == l.number
            &&& spec_load_items(l.nested, files, fi, parents.push(l.name)) is Ok
            &&& fi2 == spec_load_items(l.nested, files, fi, parents.push(l.name))->Ok_0.1
        }),
{
}

// ---------------------------------------------------------------------------
// Section numbers: gapless, 1-based, continuous across parts
// ---------------------------------------------------------------------------

/// A rank folded into the 32-bit counter the parser uses.
pub open spec fn w32(x: int) -> u32 {
    (x % 0x1_0000_0000) as u32
}

/// How many of the items are links.
pub open spec fn links_count(items: Seq<SummaryItemView>) -> int
    decreases items.len(),
{
    if items.len() == 0 {
        0
    } else {
        (if items[0] is Link {
            1int
        } else {
            0int
        }) + links_count(items.drop_first())
    }
}

/// Every item of the forest is a link.
pub open spec fn all_links(items: Seq<SummaryItemView>) -> bool {
    forall|j: int| 0 <= j < items.len() ==> (#[trigger] items[j]) is Link
}

/// Section numbers run gapless at every level. Scanning `items` with `base`
/// numbered links already emitted at this level, each link carries `parent`
/// extended by the rank `base + its position among the links + 1` (folded
/// into 32 bits, which changes nothing below four billion chapters), and
/// its nested items are numbered under that number, from zero again.
pub open spec fn numbers_ok(items: Seq<SummaryItemView>, parent: Seq<u32>, base: int) -> bool
    decreases items, 0int,
{
    if items.len() == 0 {
        true
    } else {
        &&& item_numbers_ok(items[0], parent, base)
        &&& numbers_ok(
            items.drop_first(),
            parent,
            base + (if items[0] is Link {
                1int
            } else {
                0int
            }),
        )
    }
}

/// [`numbers_ok`] at one item: separators and part titles carry nothing,
/// and a link carries exactly the next rank.
pub open spec fn item_numbers_ok(item: SummaryItemView, parent: Seq<u32>, base: int) -> bool
    decreases item, 1int,
{
    match item {
        SummaryItemView::Link(l) => {
            &&& l.number == Option::Some(parent.push(w32(base + 1)))
            &&& numbers_ok(l.nested, parent.push(w32(base + 1)), 0)
        },
        _ => true,
    }
}

/// Congruent counts fold to the same rank, shifted or not.
proof fn lemma_mod_shift(a: int, b: int, c: int)
    requires
        a % 0x1_0000_0000 == b % 0x1_0000_0000,
    ensures
        (a + c) % 0x1_0000_0000 == (b + c) % 0x1_0000_0000,
{
    lemma_add_mod_noop(a, c, 0x1_0000_0000);
    lemma_add_mod_noop(b, c, 0x1_0000_0000);
}

/// The parser's sibling index is the folded rank.
proof fn lemma_sibling_is_w32(k: int)
    ensures
        sibling_number(k) == w32(k + 1),
{
    lemma_mod_twice(k, 0x1_0000_0000);
    lemma_mod_shift(k % 0x1_0000_0000, k, 1);
}

/// Adding to a folded rank folds the sum.
proof fn lemma_wrap_add_w32(x: int, c: u32)
    ensures
        wrap_add_u32(w32(x), c) == w32(x + c),
{
    lemma_mod_twice(x, 0x1_0000_0000);
    lemma_mod_shift(x % 0x1_0000_0000, x, c as int);
    if w32(x) + c > u32::MAX {
        assert((w32(x) + c) % 0x1_0000_0000 == w32(x) + c - 0x1_0000_0000);
    }
}

/// In an all-link forest every item counts.
proof fn lemma_links_count_all(items: Seq<SummaryItemView>)
    requires
        all_links(items),
    ensures
        links_count(items) == items.len(),
    decreases items.len(),
{
    if items.len() > 0 {
        assert(all_links(items.drop_first()));
        lemma_links_count_all(items.drop_first());
    }
}

/// Link counts add across concatenation.
proof fn lemma_links_count_concat(a: Seq<SummaryItemView>, b: Seq<SummaryItemView>)
    ensures
        links_count(a + b) == links_count(a) + links_count(b),
    decreases a.len(),
{
    if a.len() == 0 {
        assert(a + b =~= b);
    } else {
        assert((a + b)[0] == a[0]);
        assert((a + b).drop_first() =~= a.drop_first() + b);
        lemma_links_count_concat(a.drop_first(), b);
    }
}

/// Appending one well-ranked item keeps the forest well-numbered.
proof fn lemma_numbers_snoc(
    items: Seq<SummaryItemView>,
    parent: Seq<u32>,
    base: int,
    x: SummaryItemView,
)
    requires
        numbers_ok(items, parent, base),
        item_numbers_ok(x, parent, base + links_count(items)),
    ensures
        numbers_ok(items.push(x), parent, base),
    decreases items.len(),
{
    if items.len() == 0 {
        assert(items.push(x)[0] == x);
        assert(items.push(x).drop_first() =~= Seq::<SummaryItemView>::empty());
        assert(links_count(items) == 0);
        assert(numbers_ok(items.push(x).drop_first(), parent, base + (if x is Link {
            1int
        } else {
            0int
        })));
        assert(numbers_ok(items.push(x), parent, base));
    } else {
        assert(items.push(x)[0] == items[0]);
        assert(items.push(x).drop_first() =~= items.drop_first().push(x));
        assert(item_numbers_ok(items[0], parent, base));
        assert(numbers_ok(items.drop_first(), parent, base + (if items[0] is Link {
            1int
        } else {
            0int
        })));
        assert(links_count(items) == (if items[0] is Link {
            1int
        } else {
            0int
        }) + links_count(items.drop_first()));
        lemma_numbers_snoc(
            items.drop_first(),
            parent,
            base + (if items[0] is Link {
                1int
            } else {
                0int
            }),
            x,
        );
        assert(numbers_ok(items.push(x), parent, base));
    }
}

/// Concatenating a forest numbered right after the first keeps both.
proof fn lemma_numbers_concat(
    a: Seq<SummaryItemView>,
    b: Seq<SummaryItemView>,
    parent: Seq<u32>,
    base: int,
)
    requires
        numbers_ok(a, parent, base),
        numbers_ok(b, parent, base + links_count(a)),
    ensures
        numbers_ok(a + b, parent, base),
    decreases a.len(),
{
    if a.len() == 0 {
        assert(a + b =~= b);
    } else {
        assert((a + b)[0] == a[0]);
        assert((a + b).drop_first() =~= a.drop_first() + b);
        lemma_numbers_concat(
            a.drop_first(),
            b,
            parent,
            base + (if a[0] is Link {
                1int
            } else {
                0int
            }),
        );
    }
}

/// The base matters only modulo the fold.
proof fn lemma_numbers_base_mod(items: Seq<SummaryItemView>, parent: Seq<u32>, b1: int, b2: int)
    requires
        numbers_ok(items, parent, b1),
        b1 % 0x1_0000_0000 == b2 % 0x1_0000_0000,
    ensures
        numbers_ok(items, parent, b2),
    decreases items.len(),
{
    if items.len() > 0 {
        lemma_mod_shift(b1, b2, 1);
        assert(w32(b1 + 1) == w32(b2 + 1));
        let d: int = if items[0] is Link {
            1
        } else {
            0
        };
        assert(item_numbers_ok(items[0], parent, b1));
        assert(item_numbers_ok(items[0], parent, b2));
        lemma_mod_shift(b1, b2, d);
        lemma_numbers_base_mod(items.drop_first(), parent, b1 + d, b2 + d);
        assert(numbers_ok(items, parent, b2));
    }
}

/// In an all-link well-numbered forest, the item at `j` is the link of rank
/// `base + j + 1` with its nested items well-numbered under it.
proof fn lemma_numbers_index(items: Seq<SummaryItemView>, parent: Seq<u32>, base: int, j: int)
    requires
        numbers_ok(items, parent, base),
        all_links(items),
        0 <= j < items.len(),
    ensures
        items[j] is Link,
        items[j]->Link_0.number == Option::Some(parent.push(w32(base + j + 1))),
        numbers_ok(items[j]->Link_0.nested, parent.push(w32(base + j + 1)), 0),
    decreases j,
{
    if j == 0 {
        assert(item_numbers_ok(items[0], parent, base));
    } else {
        assert(item_numbers_ok(items[0], parent, base));
        assert(items[0] is Link);
        assert(all_links(items.drop_first()));
        lemma_numbers_index(items.drop_first(), parent, base + 1, j - 1);
        assert(items.drop_first()[j - 1] == items[j]);
    }
}

/// Replacing the item at `j` with a link of the same rank whose nested
/// items are well-numbered keeps the forest well-numbered and all-link.
proof fn lemma_numbers_update(
    items: Seq<SummaryItemView>,
    parent: Seq<u32>,
    base: int,
    j: int,
    x: SummaryItemView,
)
    requires
        numbers_ok(items, parent, base),
        all_links(items),
        0 <= j < items.len(),
        x is Link,
        item_numbers_ok(x, parent, base + j),
    ensures
        numbers_ok(items.update(j, x), parent, base),
        all_links(items.update(j, x)),
    decreases j,
{
    assert(all_links(items.update(j, x))) by {
        assert(forall|t: int|
            0 <= t < items.len() && t != j ==> items.update(j, x)[t] == items[t]);
    }
    if j == 0 {
        assert(items.update(0, x)[0] == x);
        assert(items.update(0, x).drop_first() =~= items.drop_first());
    } else {
        assert(items.update(j, x)[0] == items[0]);
        assert(items.update(j, x).drop_first() =~= items.drop_first().update(j - 1, x));
        assert(all_links(items.drop_first()));
        lemma_numbers_update(items.drop_first(), parent, base + 1, j - 1, x);
    }
}

/// In a non-empty all-link forest the last link is the last item.
proof fn lemma_find_last_all_links(items: Seq<SummaryItemView>)
    requires
        all_links(items),
        items.len() > 0,
    ensures
        spec_find_last_link(items) == Option::Some(items.len() - 1),
{
    assert(items.last() is Link);
}

/// A parsed nested item is a link ranked by the count of its elder siblings.
proof fn lemma_nested_item_numbers(
    evs: Seq<LexedEventView>,
    i: int,
    last: usize,
    parent: Seq<u32>,
    k: int,
)
    requires
        spec_parse_nested_item(evs, i, last, parent, k) is Ok,
    ensures
        ({
            let (item, _, _) = spec_parse_nested_item(evs, i, last, parent, k)->Ok_0;
            item is Link && item_numbers_ok(item, parent, k)
        }),
    decreases evs.len() - i,
{
    let n = evs.len() as int;
    if !(0 <= i < n) {
        assert(false);
    } else {
        let e = evs[i];
        match e.event {
            MdEventView::Start(MdTagView::Paragraph) => {
                lemma_nested_item_numbers(evs, i + 1, e.offset, parent, k);
            },
            MdEventView::Start(MdTagView::Link { dest, .. }) => {
                lemma_sibling_is_w32(k);
            },
            _ => {
                assert(false);
            },
        }
    }
}

/// One level of nested parsing keeps the forest well-numbered and all-link.
proof fn lemma_nested_numbered_numbers(
    evs: Seq<LexedEventView>,
    i: int,
    last: usize,
    parent: Seq<u32>,
    acc: Seq<SummaryItemView>,
)
    requires
        spec_parse_nested_numbered(evs, i, last, parent, acc) is Ok,
        numbers_ok(acc, parent, 0),
        all_links(acc),
    ensures
        ({
            let (items, _, _) = spec_parse_nested_numbered(evs, i, last, parent, acc)->Ok_0;
            numbers_ok(items, parent, 0) && all_links(items)
        }),
    decreases evs.len() - i,
{
    let n = evs.len() as int;
    if !(0 <= i < n) {
    } else {
        let e = evs[i];
        match e.event {
            MdEventView::Start(MdTagView::Item) => {
                let inner = spec_parse_nested_item(evs, i + 1, e.offset, parent, acc.len() as int);
                match inner {
                    Result::Err(_) => {
                        assert(false);
                    },
                    Result::Ok((item, j, last2)) => {
                        lemma_nested_item_numbers(evs, i + 1, e.offset, parent, acc.len() as int);
                        lemma_links_count_all(acc);
                        lemma_numbers_snoc(acc, parent, 0, item);
                        assert(all_links(acc.push(item))) by {
                            assert(forall|t: int|
                                0 <= t < acc.len() ==> acc.push(item)[t] == acc[t]);
                            assert(acc.push(item)[acc.len() as int] == item);
                        }
                        lemma_nested_numbered_numbers(
                            evs,
                            step_to(i + 1, j, n),
                            last2,
                            parent,
                            acc.push(item),
                        );
                    },
                }
            },
            MdEventView::Start(MdTagView::List) => {
                if acc.len() == 0 {
                    lemma_nested_numbered_numbers(evs, i + 1, e.offset, parent, acc);
                } else {
                    match spec_find_last_link(acc) {
                        Option::None => {
                            assert(false);
                        },
                        Option::Some(ix) => {
                            lemma_find_last_all_links(acc);
                            let lk = acc[ix]->Link_0;
                            lemma_numbers_index(acc, parent, 0, ix);
                            let parent2 = lk.number->Some_0;
                            let inner = spec_parse_nested_numbered(
                                evs,
                                i + 1,
                                e.offset,
                                parent2,
                                Seq::empty(),
                            );
                            match inner {
                                Result::Err(_) => {
                                    assert(false);
                                },
                                Result::Ok((sub, j, last2)) => {
                                    lemma_nested_numbered_numbers(
                                        evs,
                                        i + 1,
                                        e.offset,
                                        parent2,
                                        Seq::empty(),
                                    );
                                    let updated = SummaryItemView::Link(
                                        LinkView { nested: sub, ..lk },
                                    );
                                    assert(item_numbers_ok(updated, parent, ix));
                                    lemma_numbers_update(acc, parent, 0, ix, updated);
                                    lemma_nested_numbered_numbers(
                                        evs,
                                        step_to(i + 1, j, n),
                                        last2,
                                        parent,
                                        acc.update(ix, updated),
                                    );
                                },
                            }
                        },
                    }
                }
            },
            MdEventView::End(MdTagView::List) => {
            },
            _ => {
                lemma_nested_numbered_numbers(evs, i + 1, e.offset, parent, acc);
            },
        }
    }
}

/// Raising the level-0 entries rebases a root forest by `by` ranks.
proof fn lemma_update_rebase(items: Seq<SummaryItemView>, base: int, by: u32)
    requires
        numbers_ok(items, Seq::empty(), base),
    ensures
        numbers_ok(spec_update_numbers(items, 0, by), Seq::empty(), base + by),
        spec_update_numbers(items, 0, by).len() == items.len(),
        forall|j: int|
            0 <= j < items.len() ==> ((#[trigger] spec_update_numbers(items, 0, by)[j]) is Link
                <==> items[j] is Link),
    decreases items.len(),
{
    let upd = spec_update_numbers(items, 0, by);
    if items.len() > 0 {
        assert(upd[0] == spec_update_item(items[0], 0, by));
        assert(upd.drop_first() =~= spec_update_numbers(items.drop_first(), 0, by));
        assert(item_numbers_ok(items[0], Seq::empty(), base));
        match items[0] {
            SummaryItemView::Link(l) => {
                let num = Seq::<u32>::empty().push(w32(base + 1));
                assert(l.number == Option::Some(num));
                lemma_wrap_add_w32(base + 1, by);
                assert(num.update(0, wrap_add_u32(num[0], by)) =~= Seq::<u32>::empty().push(
                    w32(base + by + 1),
                ));
                lemma_update_numbers_rec(l.nested, 0, by);
                lemma_update_nested_items(l.nested, num, 0, by);
                assert(num.update(0, wrap_add_u32(num[0], by)) =~= Seq::<u32>::empty().push(
                    w32((base + by) + 1),
                ));
            },
            _ => {},
        }
        lemma_update_rebase(items.drop_first(), base + (if items[0] is Link {
            1int
        } else {
            0int
        }), by);
        assert(item_numbers_ok(upd[0], Seq::empty(), base + by));
        assert(numbers_ok(upd, Seq::empty(), base + by));
    } else {
        assert(upd =~= Seq::<SummaryItemView>::empty());
    }
}

/// Raising level 0 under a non-empty parent rewrites the parent's head and
/// nothing of the ranks below it.
proof fn lemma_update_nested_items(
    items: Seq<SummaryItemView>,
    parent: Seq<u32>,
    base: int,
    by: u32,
)
    requires
        numbers_ok(items, parent, base),
        parent.len() > 0,
    ensures
        numbers_ok(
            spec_update_numbers(items, 0, by),
            parent.update(0, wrap_add_u32(parent[0], by)),
            base,
        ),
    decreases items, 0int,
{
    let upd = spec_update_numbers(items, 0, by);
    let parent2 = parent.update(0, wrap_add_u32(parent[0], by));
    if items.len() > 0 {
        assert(upd[0] == spec_update_item(items[0], 0, by));
        assert(upd.drop_first() =~= spec_update_numbers(items.drop_first(), 0, by));
        assert(item_numbers_ok(items[0], parent, base));
        lemma_update_nested_item(items[0], parent, base, by);
        assert(upd[0] is Link <==> items[0] is Link) by {
            match items[0] {
                SummaryItemView::Link(_) => {},
                _ => {},
            }
        }
        lemma_update_nested_items(items.drop_first(), parent, base + (if items[0] is Link {
            1int
        } else {
            0int
        }), by);
        assert(numbers_ok(upd, parent2, base));
    } else {
        assert(upd =~= Seq::<SummaryItemView>::empty());
    }
}

/// [`lemma_update_nested_items`] at one item.
proof fn lemma_update_nested_item(item: SummaryItemView, parent: Seq<u32>, base: int, by: u32)
    requires
        item_numbers_ok(item, parent, base),
        parent.len() > 0,
    ensures
        item_numbers_ok(
            spec_update_item(item, 0, by),
            parent.update(0, wrap_add_u32(parent[0], by)),
            base,
        ),
    decreases item, 1int,
{
    let parent2 = parent.update(0, wrap_add_u32(parent[0], by));
    match item {
        SummaryItemView::Link(l) => {
            let num = parent.push(w32(base + 1));
            assert(l.number == Option::Some(num));
            assert(num[0] == parent[0]);
            assert(num.update(0, wrap_add_u32(num[0], by)) =~= parent2.push(w32(base + 1)));
            lemma_update_numbers_rec(l.nested, 0, by);
            lemma_update_nested_items(l.nested, num, 0, by);
        },
        _ => {},
    }
}

/// A numbered block keeps the root forest well-numbered, its counter the
/// folded total of emitted links.
proof fn lemma_numbered_numbers(
    evs: Seq<LexedEventView>,
    i: int,
    last: usize,
    first: bool,
    count: u32,
    acc: Seq<SummaryItemView>,
    the_base: int,
)
    requires
        spec_parse_numbered(evs, i, last, first, count, acc) is Ok,
        numbers_ok(acc, Seq::empty(), the_base),
        count == w32(the_base + links_count(acc)),
    ensures
        ({
            let (items, _, _, count2) = spec_parse_numbered(evs, i, last, first, count, acc)->Ok_0;
            numbers_ok(items, Seq::empty(), the_base) && count2 == w32(
                the_base + links_count(items),
            )
        }),
    decreases evs.len() - i,
{
    let n = evs.len() as int;
    if !(0 <= i < n) {
    } else {
        let e = evs[i];
        match e.event {
            MdEventView::Start(MdTagView::Paragraph) => {
                if first {
                    lemma_numbered_numbers(evs, i + 1, e.offset, false, count, acc, the_base);
                }
            },
            MdEventView::Start(MdTagView::Heading(l)) => {
                if l == 1 {
                } else {
                    let (j, last2) = crate::summary::spec_drain_until_end(
                        evs,
                        i + 1,
                        e.offset,
                        MdTagView::Heading(l),
                    );
                    lemma_numbered_numbers(
                        evs,
                        step_to(i + 1, j, n),
                        last2,
                        false,
                        count,
                        acc,
                        the_base,
                    );
                }
            },
            MdEventView::Start(MdTagView::List) => {
                let inner = spec_parse_nested_numbered(
                    evs,
                    i,
                    e.offset,
                    Seq::<u32>::empty(),
                    Seq::empty(),
                );
                match inner {
                    Result::Err(_) => {
                        assert(false);
                    },
                    Result::Ok((bunch, j, last2)) => {
                        lemma_nested_numbered_numbers(
                            evs,
                            i,
                            e.offset,
                            Seq::<u32>::empty(),
                            Seq::empty(),
                        );
                        let bunch2 = spec_update_numbers(bunch, 0, count);
                        lemma_update_rebase(bunch, 0, count);
                        lemma_numbers_base_mod(
                            bunch2,
                            Seq::empty(),
                            0 + count,
                            the_base + links_count(acc),
                        );
                        lemma_numbers_concat(acc, bunch2, Seq::empty(), the_base);
                        lemma_links_count_concat(acc, bunch2);
                        lemma_links_count_all(bunch);
                        assert(links_count(bunch2) == bunch2.len()) by {
                            assert(all_links(bunch2));
                            lemma_links_count_all(bunch2);
                        }
                        let count2 = wrap_add_u32(count, trunc_u32(bunch.len() as int));
                        assert(count2 == w32(the_base + links_count(acc + bunch2))) by {
                            lemma_mod_twice(bunch.len() as int, 0x1_0000_0000);
                            lemma_mod_shift(
                                the_base + links_count(acc),
                                (the_base + links_count(acc)) % 0x1_0000_0000,
                                0,
                            );
                            lemma_wrap_add_w32(
                                the_base + links_count(acc),
                                trunc_u32(bunch.len() as int),
                            );
                            lemma_mod_shift(
                                trunc_u32(bunch.len() as int) as int,
                                bunch.len() as int,
                                the_base + links_count(acc),
                            );
                        }
                        lemma_numbered_numbers(
                            evs,
                            step_to(i + 1, j, n),
                            last2,
                            false,
                            count2,
                            acc + bunch2,
                            the_base,
                        );
                    },
                }
            },
            MdEventView::Start(t) => {
                let (j, last2) = crate::summary::spec_drain_until_end(evs, i + 1, e.offset, t);
                lemma_numbered_numbers(evs, step_to(i + 1, j, n), last2, false, count, acc, the_base);
            },
            MdEventView::Rule => {
                lemma_numbers_snoc(acc, Seq::empty(), the_base, SummaryItemView::Separator);
                assert(links_count(acc.push(SummaryItemView::Separator)) == links_count(acc)) by {
                    assert(acc.push(SummaryItemView::Separator) =~= acc + seq![
                        SummaryItemView::Separator,
                    ]);
                    lemma_links_count_concat(acc, seq![SummaryItemView::Separator]);
                    assert(seq![SummaryItemView::Separator].drop_first() =~= Seq::<
                        SummaryItemView,
                    >::empty());
                    assert(links_count(Seq::<SummaryItemView>::empty()) == 0);
                    assert(links_count(seq![SummaryItemView::Separator]) == 0);
                }
                lemma_numbered_numbers(
                    evs,
                    i + 1,
                    e.offset,
                    false,
                    count,
                    acc.push(SummaryItemView::Separator),
                    the_base,
                );
            },
            _ => {
                lemma_numbered_numbers(evs, i + 1, e.offset, false, count, acc, the_base);
            },
        }
    }
}

/// The whole numbered section is well-numbered from rank one, part titles
/// and separators interleaved, numbering running straight across parts.
proof fn lemma_parts_numbers(
    evs: Seq<LexedEventView>,
    i: int,
    last: usize,
    count: u32,
    acc: Seq<SummaryItemView>,
)
    requires
        spec_parse_parts(evs, i, last, count, acc) is Ok,
        numbers_ok(acc, Seq::empty(), 0),
        count == w32(links_count(acc)),
    ensures
        ({
            let (items, _, _) = spec_parse_parts(evs, i, last, count, acc)->Ok_0;
            numbers_ok(items, Seq::empty(), 0)
        }),
    decreases evs.len() - i,
{
    let n = evs.len() as int;
    if !(0 <= i < n) {
    } else {
        let e = evs[i];
        if crate::summary::is_start_paragraph(e.event) {
        } else if crate::summary::is_start_h1(e.event) {
            let (txt, j0) = crate::summary::spec_collect_text(
                evs,
                i + 1,
                crate::summary::CollectKind::HeadingEnd,
            );
            let j = step_to(i + 1, j0, n);
            let inner = spec_parse_numbered(evs, j, e.offset, true, count, Seq::empty());
            match inner {
                Result::Err(_) => {
                    assert(false);
                },
                Result::Ok((items, j2, last2, count2)) => {
                    lemma_numbered_numbers(
                        evs,
                        j,
                        e.offset,
                        true,
                        count,
                        Seq::empty(),
                        links_count(acc),
                    );
                    let title = SummaryItemView::PartTitle(txt);
                    lemma_numbers_snoc(acc, Seq::empty(), 0, title);
                    assert(links_count(acc.push(title)) == links_count(acc)) by {
                        assert(acc.push(title) =~= acc + seq![title]);
                        lemma_links_count_concat(acc, seq![title]);
                        assert(seq![title].drop_first() =~= Seq::<SummaryItemView>::empty());
                        assert(links_count(Seq::<SummaryItemView>::empty()) == 0);
                        assert(links_count(seq![title]) == 0);
                    }
                    lemma_numbers_concat(acc.push(title), items, Seq::empty(), 0);
                    lemma_links_count_concat(acc.push(title), items);
                    lemma_parts_numbers(
                        evs,
                        step_to(i + 1, j2, n),
                        last2,
                        count2,
                        acc.push(title) + items,
                    );
                },
            }
        } else {
            let inner = spec_parse_numbered(evs, i, e.offset, true, count, Seq::empty());
            match inner {
                Result::Err(_) => {
                    assert(false);
                },
                Result::Ok((items, j2, last2, count2)) => {
                    lemma_numbered_numbers(
                        evs,
                        i,
                        e.offset,
                        true,
                        count,
                        Seq::empty(),
                        links_count(acc),
                    );
                    lemma_numbers_concat(acc, items, Seq::empty(), 0);
                    lemma_links_count_concat(acc, items);
                    lemma_parts_numbers(evs, step_to(i + 1, j2, n), last2, count2, acc + items);
                },
            }
        }
    }
}

/// Section numbers are gapless and 1-based among the numbered links at
/// every nesting level, and continue across parts: whatever summary the
/// parser accepts satisfies [`numbers_ok`] at its numbered section, from
/// the empty parent number and rank zero.
pub proof fn lemma_section_numbers_gapless(
    evs: Seq<LexedEventView>,
    bytes: Seq<u8>,
    s: SummaryView,
)
    requires
        spec_parse_summary(evs, bytes) == Result::<SummaryView, SummaryError>::Ok(s),
    ensures
        numbers_ok(s.numbered_chapters, Seq::empty(), 0),
{
    let (title, i1, l1) = spec_parse_title(evs, 0, 0);
    match spec_parse_affix(evs, i1, l1, true, Seq::empty()) {
        Result::Err(_) => {
            assert(false);
        },
        Result::Ok((prefix, i2, l2)) => {
            match spec_parse_parts(evs, i2, l2, 0, Seq::empty()) {
                Result::Err(_) => {
                    assert(false);
                },
                Result::Ok((numbered, _, _)) => {
                    assert(0u32 == w32(links_count(Seq::<SummaryItemView>::empty()))) by {
                        assert(0int % 0x1_0000_0000 == 0);
                    }
                    lemma_parts_numbers(evs, i2, l2, 0, Seq::empty());
                    assert(s.numbered_chapters == numbered);
                },
            }
        },
    }
}

} // verus!
