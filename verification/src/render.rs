//! The Markdown-to-markup transpiler: turns a chapter's flat event stream
//! into the output markup, one construct at a time.
//!
//! Three passes run over every event before emission: fenced code-block
//! info strings are normalized ([`spec_normalize_info`]), link, image and
//! raw-HTML destinations are rewritten to their output locations
//! ([`spec_fix_dest`], [`spec_fix_html`]), and tables are wrapped in a
//! styling container ([`spec_fold`]). Emission itself tracks which construct
//! is open (heading, paragraph or link) and whether it still awaits its
//! text; the buffering order of [`spec_step`] fixes the output byte for
//! byte.

use vstd::prelude::*;

use crate::events::{lex_markup, markup_events, MdEvent, MdEventView, MdTag, MdTagView};
use crate::section_number::{push_digits, spec_digits};
use crate::text::{chars_to_string, matches_at, matches_at_exec, spec_replace_all, str_chars};
use vstd::string::{StrSliceExecFns, StringExecFns};

verus! {

/// The construct an emission can leave open.
#[derive(Debug, Clone, Copy, PartialEq, Eq, Structural)]
pub enum MarkDownEvents {
    Heading,
    Paragraph,
    Link,
}

impl MarkDownEvents {
    /// The construct's name.
    pub fn as_str(&self) -> (r: &'static str)
        ensures
            r@ == match self {
                MarkDownEvents::Heading => "heading"@,
                MarkDownEvents::Paragraph => "paragraph"@,
                MarkDownEvents::Link => "link"@,
            },
    {
        match self {
            MarkDownEvents::Heading => "heading",
            MarkDownEvents::Paragraph => "paragraph",
            MarkDownEvents::Link => "link",
        }
    }
}

// ---------------------------------------------------------------------------
// Info-string normalization
// ---------------------------------------------------------------------------

/// Unicode whitespace, as `char::is_whitespace` counts it.
pub open spec fn is_ws(c: char) -> bool {
    let u = c as u32;
    u == 0x9 || u == 0xA || u == 0xB || u == 0xC || u == 0xD || u == 0x20 || u == 0x85 || u == 0xA0
        || u == 0x1680 || (0x2000 <= u && u <= 0x200A) || u == 0x2028 || u == 0x2029 || u == 0x202F
        || u == 0x205F || u == 0x3000
}

/// A fenced info string with spaces and tabs turned into commas and all
/// other whitespace removed: the delimiter downstream consumers split on.
pub open spec fn spec_normalize_info(s: Seq<char>) -> Seq<char>
    decreases s.len(),
{
    if s.len() == 0 {
        Seq::empty()
    } else {
        (if s[0] == ' ' || s[0] == '\t' {
            seq![',']
        } else if is_ws(s[0]) {
            Seq::<char>::empty()
        } else {
            seq![s[0]]
        }) + spec_normalize_info(s.skip(1))
    }
}

pub fn is_ws_exec(c: char) -> (r: bool)
    ensures
        r == is_ws(c),
{
    let u = c as u32;
    u == 0x9 || u == 0xA || u == 0xB || u == 0xC || u == 0xD || u == 0x20 || u == 0x85 || u == 0xA0
        || u == 0x1680 || (0x2000 <= u && u <= 0x200A) || u == 0x2028 || u == 0x2029 || u == 0x202F
        || u == 0x205F || u == 0x3000
}

/// Normalize a fenced code block's info string.
pub fn normalize_info(s: &str) -> (r: String)
    ensures
        r@ == spec_normalize_info(s@),
{
    let n = s.unicode_len();
    let mut out = String::new();
    let mut k: usize = 0;
    proof {
        assert(s@.skip(0) =~= s@);
        assert(out@ + spec_normalize_info(s@) =~= spec_normalize_info(s@));
    }
    while k < n
        invariant
            n == s@.len(),
            k <= n,
            out@ + spec_normalize_info(s@.skip(k as int)) == spec_normalize_info(s@),
        decreases n - k,
    {
        let c = s.get_char(k);
        proof {
            assert(s@.skip(k as int)[0] == s@[k as int]);
            assert(s@.skip(k as int).skip(1) =~= s@.skip(k + 1));
        }
        if c == ' ' || c == '\t' {
            out.push(',');
        } else if is_ws_exec(c) {
        } else {
            out.push(c);
        }
        k = k + 1;
    }
    proof {
        assert(s@.skip(n as int) =~= Seq::<char>::empty());
        assert(out@ =~= out@ + spec_normalize_info(s@.skip(n as int)));
    }
    out
}

/// The info-string pass over one event: only fenced code-block starts
/// change.
pub open spec fn spec_clean(e: MdEventView) -> MdEventView {
    match e {
        MdEventView::Start(MdTagView::CodeFenced(info)) => MdEventView::Start(
            MdTagView::CodeFenced(spec_normalize_info(info)),
        ),
        other => other,
    }
}

// ---------------------------------------------------------------------------
// Destination rewriting
// ---------------------------------------------------------------------------

/// Is `c` allowed after the first character of a URL scheme?
pub open spec fn scheme_char(c: char) -> bool {
    ('a' <= c && c <= 'z') || ('0' <= c && c <= '9') || c == '+' || c == '.' || c == '-'
}

/// The scheme scan after the first character: scheme characters up to a
/// colon.
pub open spec fn scheme_scan(s: Seq<char>, i: int) -> bool
    decreases s.len() - i,
{
    if !(0 <= i < s.len()) {
        false
    } else if s[i] == ':' {
        true
    } else if scheme_char(s[i]) {
        scheme_scan(s, i + 1)
    } else {
        false
    }
}

/// Does the destination begin with a URL scheme (a lowercase letter, scheme
/// characters, then a colon)? Such destinations are left untouched.
pub open spec fn is_scheme_link(s: Seq<char>) -> bool {
    s.len() > 0 && 'a' <= s[0] && s[0] <= 'z' && scheme_scan(s, 1)
}

/// The last position at or before `j` where `.md` occurs in `s`, if any.
pub open spec fn last_md_from(s: Seq<char>, j: int) -> Option<int>
    decreases j + 1,
{
    if j < 0 {
        Option::None
    } else if matches_at(s, j, seq!['.', 'm', 'd']) {
        Option::Some(j)
    } else {
        last_md_from(s, j - 1)
    }
}

/// The last occurrence of `.md` in `s`, if any.
pub open spec fn last_md(s: Seq<char>) -> Option<int> {
    last_md_from(s, s.len() - 3)
}

/// Everything before the last `/`, or nothing when there is none: the
/// directory part of a chapter location.
pub open spec fn spec_parent_dir(p: Seq<char>) -> Seq<char> {
    match last_slash_from(p, p.len() - 1) {
        Option::Some(j) => p.take(j),
        Option::None => Seq::empty(),
    }
}

/// The last `/` at or before `j`, if any.
pub open spec fn last_slash_from(p: Seq<char>, j: int) -> Option<int>
    decreases j + 1,
{
    if j < 0 {
        Option::None
    } else if 0 <= j < p.len() && p[j] == '/' {
        Option::Some(j)
    } else {
        last_slash_from(p, j - 1)
    }
}

/// A link or image destination rewritten to its output location.
///
/// A fragment-only destination (`#...`) with a known source path becomes
/// `/<path with .md swapped for .ftd>/<fragment>`. A destination with a URL
/// scheme stays as it is. Any other destination is prefixed with the source
/// path's directory (when known) and, if it holds `.md`, everything from
/// the last `.md` on is replaced by `.ftd` plus the `#` fragment that
/// followed it, if one did.
pub open spec fn spec_fix_dest(dest: Seq<char>, path: Option<Seq<char>>) -> Seq<char> {
    if dest.len() > 0 && dest[0] == '#' {
        match path {
            Option::Some(p) => {
                let base = if p.len() >= 3 && matches_at(p, p.len() - 3, seq!['.', 'm', 'd']) {
                    p.take(p.len() - 3) + seq!['.', 'f', 't', 'd']
                } else {
                    p
                };
                seq!['/'] + base + seq!['/'] + dest
            },
            Option::None => dest,
        }
    } else if is_scheme_link(dest) {
        dest
    } else {
        let base = match path {
            Option::Some(p) => {
                let par = spec_parent_dir(p);
                if par.len() > 0 {
                    par + seq!['/']
                } else {
                    Seq::<char>::empty()
                }
            },
            Option::None => Seq::<char>::empty(),
        };
        match last_md(dest) {
            Option::Some(j) => {
                let anchor = if j + 3 < dest.len() && dest[j + 3] == '#' {
                    dest.skip(j + 3)
                } else {
                    Seq::<char>::empty()
                };
                base + dest.take(j) + seq!['.', 'f', 't', 'd'] + anchor
            },
            Option::None => base + dest,
        }
    }
}

/// One step of the raw-HTML attribute scan: from position `u`, the earliest
/// `src="` or `href="` before any `>`, together with the end of its
/// (non-empty) quoted value.
pub open spec fn spec_attr_scan(h: Seq<char>, u: int) -> Option<(int, int, int)>
    decreases h.len() - u,
{
    if !(0 <= u < h.len()) {
        Option::None
    } else if h[u] == '>' {
        Option::None
    } else {
        let src = matches_at(h, u, seq!['s', 'r', 'c', '=', '"']);
        let href = matches_at(h, u, seq!['h', 'r', 'e', 'f', '=', '"']);
        if src || href {
            let alen: int = if src {
                5
            } else {
                6
            };
            match quote_from(h, u + alen) {
                Option::Some(w) => {
                    if w > u + alen {
                        Option::Some((u, alen, w))
                    } else {
                        spec_attr_scan(h, u + 1)
                    }
                },
                Option::None => spec_attr_scan(h, u + 1),
            }
        } else {
            spec_attr_scan(h, u + 1)
        }
    }
}

/// The first `"` at or after `v`, if any.
pub open spec fn quote_from(h: Seq<char>, v: int) -> Option<int>
    decreases h.len() - v,
{
    if !(0 <= v < h.len()) {
        Option::None
    } else if h[v] == '"' {
        Option::Some(v)
    } else {
        quote_from(h, v + 1)
    }
}

/// The earliest `<a ` or `<img ` at or after `t`, with its length, if any.
pub open spec fn tag_open_from(h: Seq<char>, t: int) -> Option<(int, int)>
    decreases h.len() - t,
{
    if !(0 <= t < h.len()) {
        Option::None
    } else if matches_at(h, t, seq!['<', 'a', ' ']) {
        Option::Some((t, 3))
    } else if matches_at(h, t, seq!['<', 'i', 'm', 'g', ' ']) {
        Option::Some((t, 5))
    } else {
        tag_open_from(h, t + 1)
    }
}

/// Raw HTML with the `src` and `href` attribute values of its `<a ` and
/// `<img ` tags rewritten by [`spec_fix_dest`]: a narrow scan, not a general
/// HTML parser, matching the attribute up to the first closing quote.
pub open spec fn spec_fix_html(h: Seq<char>, path: Option<Seq<char>>) -> Seq<char>
    decreases h.len(),
{
    match tag_open_from(h, 0) {
        Option::None => h,
        Option::Some((t, plen)) => {
            match spec_attr_scan(h, t + plen) {
                Option::None => {
                    if 0 <= t && t + 1 <= h.len() {
                        h.take(t + 1) + spec_fix_html(h.skip(t + 1), path)
                    } else {
                        h
                    }
                },
                Option::Some((u, alen, w)) => {
                    if 0 <= u + alen <= w < h.len() && t < u + alen {
                        h.take(u + alen) + spec_fix_dest(h.subrange(u + alen, w), path) + seq!['"']
                            + spec_fix_html(h.skip(w + 1), path)
                    } else {
                        h
                    }
                },
            }
        },
    }
}

/// The destination-rewriting pass over one event: inline link and image
/// starts have their destinations fixed, raw HTML its attributes; nothing
/// else changes.
pub open spec fn spec_fix_event(e: MdEventView, path: Option<Seq<char>>) -> MdEventView {
    match e {
        MdEventView::Start(MdTagView::Link { inline, dest }) => MdEventView::Start(
            MdTagView::Link { inline, dest: spec_fix_dest(dest, path) },
        ),
        MdEventView::Start(MdTagView::Image(d)) => MdEventView::Start(
            MdTagView::Image(spec_fix_dest(d, path)),
        ),
        MdEventView::Html(hh) => MdEventView::Html(spec_fix_html(hh, path)),
        other => other,
    }
}

// ---------------------------------------------------------------------------
// Emission
// ---------------------------------------------------------------------------

/// What one event emits and how it changes the open-construct state.
pub open spec fn spec_emit(e: MdEventView, cur: Option<MarkDownEvents>, started: bool) -> (
    Seq<char>,
    Option<MarkDownEvents>,
    bool,
) {
    match e {
        MdEventView::Start(tag) => match tag {
            MdTagView::Heading(l) => (
                "-- ds.h"@ + spec_digits(l as nat) + ": "@,
                Option::Some(MarkDownEvents::Heading),
                true,
            ),
            MdTagView::Paragraph => (
                "-- ds.markdown: "@,
                Option::Some(MarkDownEvents::Paragraph),
                true,
            ),
            MdTagView::Link { inline, dest } => {
                if inline {
                    (
                        "(/"@ + spec_replace_all(dest, ".ftd"@, Seq::<char>::empty()) + "/)"@,
                        Option::Some(MarkDownEvents::Link),
                        true,
                    )
                } else {
                    (Seq::<char>::empty(), cur, true)
                }
            },
            MdTagView::Image(d) => (
                "-- ds.image: \n                src: $assets.files"@ + spec_replace_all(
                    d,
                    "/"@,
                    "."@,
                ) + "\n                align: center"@,
                cur,
                true,
            ),
            _ => (Seq::<char>::empty(), cur, true),
        },
        MdEventView::Text(t) => (
            match cur {
                Option::Some(MarkDownEvents::Heading) => " "@ + t,
                Option::Some(MarkDownEvents::Link) => "["@ + t + "]"@,
                Option::Some(MarkDownEvents::Paragraph) => t,
                Option::None => Seq::<char>::empty(),
            },
            cur,
            false,
        ),
        MdEventView::End(_) => (Seq::<char>::empty(), cur, false),
        _ => (Seq::<char>::empty(), cur, started),
    }
}

/// The running state of the emission fold.
pub struct RenderState {
    pub cur: Option<MarkDownEvents>,
    pub started: bool,
    pub buf: Seq<char>,
    pub out: Seq<char>,
}

/// Feed one event through [`spec_emit`] and fold its emission into the
/// output. While a construct awaits its body, the emission only replaces
/// the buffer. Once an event closes the construct, the buffer and the
/// emission join the output: a link's emission goes before the buffer with
/// a newline after both, a heading's after the buffer with a newline after
/// both, and anything else after the buffer with a newline between.
pub open spec fn spec_step(e: MdEventView, st: RenderState) -> RenderState {
    let (res, cur2, started2) = spec_emit(e, st.cur, st.started);
    if !started2 {
        let piece = match cur2 {
            Option::Some(MarkDownEvents::Link) => res + st.buf + "\n"@,
            Option::Some(MarkDownEvents::Heading) => st.buf + res + "\n"@,
            _ => st.buf + "\n"@ + res,
        };
        RenderState { cur: cur2, started: started2, buf: Seq::empty(), out: st.out + piece }
    } else {
        RenderState { cur: cur2, started: started2, buf: res, out: st.out }
    }
}

/// The full fold: each event cleaned, destination-fixed, table starts and
/// ends wrapped in the styling container, then stepped through the
/// emission.
pub open spec fn spec_fold(
    events: Seq<MdEventView>,
    i: int,
    st: RenderState,
    path: Option<Seq<char>>,
) -> Seq<char>
    decreases events.len() - i,
{
    if !(0 <= i < events.len()) {
        st.out
    } else {
        let e2 = spec_fix_event(spec_clean(events[i]), path);
        let st2 = if e2 == MdEventView::Start(MdTagView::Table) {
            spec_step(e2, spec_step(MdEventView::Html("<div class=\"table-wrapper\">"@), st))
        } else if e2 == MdEventView::End(MdTagView::Table) {
            spec_step(MdEventView::Html("</div>"@), spec_step(e2, st))
        } else {
            spec_step(e2, st)
        };
        spec_fold(events, i + 1, st2, path)
    }
}

/// What the transpiler produces for an event stream: the fold from the
/// empty state.
pub open spec fn spec_render(events: Seq<MdEventView>, path: Option<Seq<char>>) -> Seq<char> {
    spec_fold(
        events,
        0,
        RenderState {
            cur: Option::None,
            started: false,
            buf: Seq::empty(),
            out: Seq::empty(),
        },
        path,
    )
}

// ---------------------------------------------------------------------------
// The executable transpiler
// ---------------------------------------------------------------------------

/// The view of an optional character vector.
pub open spec fn opt_chars(o: Option<Vec<char>>) -> Option<Seq<char>> {
    match o {
        Option::Some(v) => Option::Some(v@),
        Option::None => Option::None,
    }
}

/// Append the characters of `s` to `out`.
fn push_all(out: &mut Vec<char>, s: &Vec<char>)
    ensures
        final(out)@ == old(out)@ + s@,
{
    let mut k: usize = 0;
    while k < s.len()
        invariant
            k <= s@.len(),
            out@ == old(out)@ + s@.take(k as int),
        decreases s@.len() - k,
    {
        out.push(s[k]);
        proof {
            assert(old(out)@ + s@.take(k as int) + seq![s@[k as int]] =~= old(out)@ + s@.take(
                k + 1,
            ));
        }
        k = k + 1;
    }
    proof {
        assert(old(out)@ + s@.take(s@.len() as int) =~= old(out)@ + s@);
    }
}

/// Append `v[a..b]` to `out`.
fn push_range(out: &mut Vec<char>, v: &Vec<char>, a: usize, b: usize)
    requires
        a <= b <= v@.len(),
    ensures
        final(out)@ == old(out)@ + v@.subrange(a as int, b as int),
{
    let mut k: usize = a;
    while k < b
        invariant
            a <= k <= b <= v@.len(),
            out@ == old(out)@ + v@.subrange(a as int, k as int),
        decreases b - k,
    {
        out.push(v[k]);
        proof {
            assert(old(out)@ + v@.subrange(a as int, k as int) + seq![v@[k as int]] =~= old(out)@
                + v@.subrange(a as int, k + 1));
        }
        k = k + 1;
    }
}

fn scheme_scan_exec(d: &Vec<char>, i: usize) -> (r: bool)
    ensures
        r == scheme_scan(d@, i as int),
    decreases d@.len() - i,
{
    if i >= d.len() {
        false
    } else {
        let c = d[i];
        if c == ':' {
            true
        } else if (('a' <= c && c <= 'z') || ('0' <= c && c <= '9') || c == '+' || c == '.' || c
            == '-') {
            scheme_scan_exec(d, i + 1)
        } else {
            false
        }
    }
}

fn is_scheme_exec(d: &Vec<char>) -> (r: bool)
    ensures
        r == is_scheme_link(d@),
{
    if d.len() == 0 {
        return false;
    }
    let c = d[0];
    if 'a' <= c && c <= 'z' {
        scheme_scan_exec(d, 1)
    } else {
        false
    }
}

/// The characters `.md`.
fn md_pat() -> (r: Vec<char>)
    ensures
        r@ == seq!['.', 'm', 'd'],
{
    let mut p: Vec<char> = Vec::new();
    p.push('.');
    p.push('m');
    p.push('d');
    proof {
        assert(p@ =~= seq!['.', 'm', 'd']);
    }
    p
}

fn last_md_from_exec(d: &Vec<char>, jp: usize, pat: &Vec<char>) -> (r: Option<usize>)
    requires
        jp <= d@.len(),
        pat@ == seq!['.', 'm', 'd'],
    ensures
        ({
            let s = last_md_from(d@, jp - 1);
            match (r, s) {
                (Option::Some(x), Option::Some(sx)) => x as int == sx && matches_at(
                    d@,
                    x as int,
                    seq!['.', 'm', 'd'],
                ),
                (Option::None, Option::None) => true,
                _ => false,
            }
        }),
    decreases jp,
{
    if jp == 0 {
        None
    } else if matches_at_exec(d, jp - 1, pat) {
        Some(jp - 1)
    } else {
        last_md_from_exec(d, jp - 1, pat)
    }
}

fn last_md_exec(d: &Vec<char>) -> (r: Option<usize>)
    ensures
        ({
            let s = last_md(d@);
            match (r, s) {
                (Option::Some(x), Option::Some(sx)) => x as int == sx && x + 3 <= d@.len(),
                (Option::None, Option::None) => true,
                _ => false,
            }
        }),
{
    let pat = md_pat();
    if d.len() < 3 {
        proof {
            if d@.len() - 3 >= 0 {
            }
            assert(last_md_from(d@, d@.len() - 3) is None);
        }
        return None;
    }
    last_md_from_exec(d, d.len() - 3 + 1, &pat)
}

fn last_slash_exec(p: &Vec<char>, jp: usize) -> (r: Option<usize>)
    requires
        jp <= p@.len(),
    ensures
        ({
            let s = last_slash_from(p@, jp - 1);
            match (r, s) {
                (Option::Some(x), Option::Some(sx)) => x as int == sx && x < p@.len(),
                (Option::None, Option::None) => true,
                _ => false,
            }
        }),
    decreases jp,
{
    if jp == 0 {
        None
    } else if p[jp - 1] == '/' {
        Some(jp - 1)
    } else {
        last_slash_exec(p, jp - 1)
    }
}

/// The directory part of a location: everything before the last `/`.
pub(crate) fn parent_dir_exec(p: &Vec<char>) -> (r: Vec<char>)
    ensures
        r@ == spec_parent_dir(p@),
{
    match last_slash_exec(p, p.len()) {
        Some(j) => {
            let mut out: Vec<char> = Vec::new();
            push_range(&mut out, p, 0, j);
            proof {
                assert(out@ =~= p@.take(j as int));
            }
            out
        },
        None => Vec::new(),
    }
}

/// Rewrite one destination; see [`spec_fix_dest`].
fn fix_dest_exec(dest: &Vec<char>, path: &Option<Vec<char>>) -> (r: Vec<char>)
    ensures
        r@ == spec_fix_dest(dest@, opt_chars(*path)),
{
    let pat = md_pat();
    if dest.len() > 0 && dest[0] == '#' {
        match path {
            Some(p) => {
                let mut out: Vec<char> = Vec::new();
                out.push('/');
                if p.len() >= 3 && matches_at_exec(p, p.len() - 3, &pat) {
                    push_range(&mut out, p, 0, p.len() - 3);
                    out.push('.');
                    out.push('f');
                    out.push('t');
                    out.push('d');
                } else {
                    push_range(&mut out, p, 0, p.len());
                    proof {
                        assert(p@.subrange(0, p@.len() as int) =~= p@);
                    }
                }
                out.push('/');
                push_range(&mut out, dest, 0, dest.len());
                proof {
                    assert(dest@.subrange(0, dest@.len() as int) =~= dest@);
                    assert(out@ =~= spec_fix_dest(dest@, opt_chars(*path)));
                }
                out
            },
            None => {
                let mut out: Vec<char> = Vec::new();
                push_range(&mut out, dest, 0, dest.len());
                proof {
                    assert(out@ =~= dest@);
                }
                out
            },
        }
    } else if is_scheme_exec(dest) {
        let mut out: Vec<char> = Vec::new();
        push_range(&mut out, dest, 0, dest.len());
        proof {
            assert(out@ =~= dest@);
        }
        out
    } else {
        let mut out: Vec<char> = Vec::new();
        if let Some(p) = path {
            let par = parent_dir_exec(p);
            if par.len() > 0 {
                push_all(&mut out, &par);
                out.push('/');
            }
        }
        let ghost base = out@;
        match last_md_exec(dest) {
            Some(j) => {
                push_range(&mut out, dest, 0, j);
                out.push('.');
                out.push('f');
                out.push('t');
                out.push('d');
                if j + 3 < dest.len() && dest[j + 3] == '#' {
                    push_range(&mut out, dest, j + 3, dest.len());
                }
                proof {
                    assert(dest@.subrange(j + 3, dest@.len() as int) =~= dest@.skip(j + 3));
                    assert(dest@.subrange(0, j as int) =~= dest@.take(j as int));
                    assert(out@ =~= spec_fix_dest(dest@, opt_chars(*path)));
                }
                out
            },
            None => {
                push_range(&mut out, dest, 0, dest.len());
                proof {
                    assert(dest@.subrange(0, dest@.len() as int) =~= dest@);
                    assert(out@ =~= spec_fix_dest(dest@, opt_chars(*path)));
                }
                out
            },
        }
    }
}

fn quote_from_exec(h: &Vec<char>, v: usize) -> (r: Option<usize>)
    ensures
        ({
            let s = quote_from(h@, v as int);
            match (r, s) {
                (Option::Some(x), Option::Some(sx)) => x as int == sx && v <= x < h@.len(),
                (Option::None, Option::None) => true,
                _ => false,
            }
        }),
    decreases h@.len() - v,
{
    if v >= h.len() {
        None
    } else if h[v] == '"' {
        Some(v)
    } else {
        quote_from_exec(h, v + 1)
    }
}

/// The characters `src="`.
fn src_pat() -> (r: Vec<char>)
    ensures
        r@ == seq!['s', 'r', 'c', '=', '"'],
{
    let mut p: Vec<char> = Vec::new();
    p.push('s');
    p.push('r');
    p.push('c');
    p.push('=');
    p.push('"');
    proof {
        assert(p@ =~= seq!['s', 'r', 'c', '=', '"']);
    }
    p
}

/// The characters `href="`.
fn href_pat() -> (r: Vec<char>)
    ensures
        r@ == seq!['h', 'r', 'e', 'f', '=', '"'],
{
    let mut p: Vec<char> = Vec::new();
    p.push('h');
    p.push('r');
    p.push('e');
    p.push('f');
    p.push('=');
    p.push('"');
    proof {
        assert(p@ =~= seq!['h', 'r', 'e', 'f', '=', '"']);
    }
    p
}

fn attr_scan_exec(h: &Vec<char>, u: usize, src: &Vec<char>, href: &Vec<char>) -> (r: Option<
    (usize, usize, usize),
>)
    requires
        u <= h@.len(),
        src@ == seq!['s', 'r', 'c', '=', '"'],
        href@ == seq!['h', 'r', 'e', 'f', '=', '"'],
    ensures
        ({
            let s = spec_attr_scan(h@, u as int);
            match (r, s) {
                (Option::Some((x, a, w)), Option::Some((sx, sa, sw))) => x as int == sx && a as int
                    == sa && w as int == sw && x + a <= w < h@.len() && u <= x,
                (Option::None, Option::None) => true,
                _ => false,
            }
        }),
    decreases h@.len() - u,
{
    if u >= h.len() {
        return None;
    }
    if h[u] == '>' {
        return None;
    }
    let is_src = matches_at_exec(h, u, src);
    let is_href = matches_at_exec(h, u, href);
    if is_src || is_href {
        let alen: usize = if is_src {
            5
        } else {
            6
        };
        match quote_from_exec(h, u + alen) {
            Some(w) => {
                if w > u + alen {
                    Some((u, alen, w))
                } else {
                    attr_scan_exec(h, u + 1, src, href)
                }
            },
            None => attr_scan_exec(h, u + 1, src, href),
        }
    } else {
        attr_scan_exec(h, u + 1, src, href)
    }
}

/// The characters `<a `.
fn a_pat() -> (r: Vec<char>)
    ensures
        r@ == seq!['<', 'a', ' '],
{
    let mut p: Vec<char> = Vec::new();
    p.push('<');
    p.push('a');
    p.push(' ');
    proof {
        assert(p@ =~= seq!['<', 'a', ' ']);
    }
    p
}

/// The characters `<img `.
fn img_pat() -> (r: Vec<char>)
    ensures
        r@ == seq!['<', 'i', 'm', 'g', ' '],
{
    let mut p: Vec<char> = Vec::new();
    p.push('<');
    p.push('i');
    p.push('m');
    p.push('g');
    p.push(' ');
    proof {
        assert(p@ =~= seq!['<', 'i', 'm', 'g', ' ']);
    }
    p
}

fn tag_open_exec(h: &Vec<char>, t: usize, a: &Vec<char>, img: &Vec<char>) -> (r: Option<
    (usize, usize),
>)
    requires
        t <= h@.len(),
        a@ == seq!['<', 'a', ' '],
        img@ == seq!['<', 'i', 'm', 'g', ' '],
    ensures
        ({
            let s = tag_open_from(h@, t as int);
            match (r, s) {
                (Option::Some((x, p)), Option::Some((sx, sp))) => x as int == sx && p as int == sp
                    && x + p <= h@.len() && x < h@.len() && 3 <= p,
                (Option::None, Option::None) => true,
                _ => false,
            }
        }),
    decreases h@.len() - t,
{
    if t >= h.len() {
        None
    } else if matches_at_exec(h, t, a) {
        Some((t, 3))
    } else if matches_at_exec(h, t, img) {
        Some((t, 5))
    } else {
        tag_open_exec(h, t + 1, a, img)
    }
}

/// Rewrite the attributes of raw HTML; see [`spec_fix_html`].
fn fix_html_exec(h: Vec<char>, path: &Option<Vec<char>>) -> (r: Vec<char>)
    ensures
        r@ == spec_fix_html(h@, opt_chars(*path)),
    decreases h@.len(),
{
    let a = a_pat();
    let img = img_pat();
    let src = src_pat();
    let href = href_pat();
    match tag_open_exec(&h, 0, &a, &img) {
        None => h,
        Some((t, plen)) => {
            match attr_scan_exec(&h, t + plen, &src, &href) {
                None => {
                    let mut out: Vec<char> = Vec::new();
                    push_range(&mut out, &h, 0, t + 1);
                    let mut tail: Vec<char> = Vec::new();
                    push_range(&mut tail, &h, t + 1, h.len());
                    proof {
                        assert(tail@ =~= h@.skip(t + 1));
                    }
                    let mut fixed = fix_html_exec(tail, path);
                    out.append(&mut fixed);
                    proof {
                        assert(out@ =~= spec_fix_html(h@, opt_chars(*path)));
                    }
                    out
                },
                Some((u, alen, w)) => {
                    let mut out: Vec<char> = Vec::new();
                    push_range(&mut out, &h, 0, u + alen);
                    let mut val: Vec<char> = Vec::new();
                    push_range(&mut val, &h, u + alen, w);
                    let mut fixed_val = fix_dest_exec(&val, path);
                    out.append(&mut fixed_val);
                    out.push('"');
                    let mut tail: Vec<char> = Vec::new();
                    push_range(&mut tail, &h, w + 1, h.len());
                    proof {
                        assert(tail@ =~= h@.skip(w + 1));
                    }
                    let mut fixed = fix_html_exec(tail, path);
                    out.append(&mut fixed);
                    proof {
                        assert(out@ =~= spec_fix_html(h@, opt_chars(*path)));
                    }
                    out
                },
            }
        },
    }
}

/// Run the info-string and destination passes over one event.
fn pipeline_event(e: &MdEvent, path: &Option<Vec<char>>) -> (r: MdEvent)
    ensures
        r@ == spec_fix_event(spec_clean(e@), opt_chars(*path)),
{
    match e {
        MdEvent::Start(tag) => {
            let tag2: MdTag = match tag {
                MdTag::CodeFenced(info) => MdTag::CodeFenced(normalize_info(info.as_str())),
                MdTag::Link { inline, dest } => {
                    let dv = str_chars(dest.as_str());
                    let fixed = fix_dest_exec(&dv, path);
                    MdTag::Link { inline: *inline, dest: chars_to_string(&fixed) }
                },
                MdTag::Image(d) => {
                    let dv = str_chars(d.as_str());
                    let fixed = fix_dest_exec(&dv, path);
                    MdTag::Image(chars_to_string(&fixed))
                },
                MdTag::Paragraph => MdTag::Paragraph,
                MdTag::Heading(l) => MdTag::Heading(*l),
                MdTag::List => MdTag::List,
                MdTag::Item => MdTag::Item,
                MdTag::CodeIndented => MdTag::CodeIndented,
                MdTag::Table => MdTag::Table,
                MdTag::Other(c) => MdTag::Other(*c),
            };
            MdEvent::Start(tag2)
        },
        MdEvent::End(tag) => {
            let tag2: MdTag = match tag {
                MdTag::CodeFenced(info) => MdTag::CodeFenced(info.clone()),
                MdTag::Link { inline, dest } => MdTag::Link {
                    inline: *inline,
                    dest: dest.clone(),
                },
                MdTag::Image(d) => MdTag::Image(d.clone()),
                MdTag::Paragraph => MdTag::Paragraph,
                MdTag::Heading(l) => MdTag::Heading(*l),
                MdTag::List => MdTag::List,
                MdTag::Item => MdTag::Item,
                MdTag::CodeIndented => MdTag::CodeIndented,
                MdTag::Table => MdTag::Table,
                MdTag::Other(c) => MdTag::Other(*c),
            };
            MdEvent::End(tag2)
        },
        MdEvent::Text(t) => MdEvent::Text(t.clone()),
        MdEvent::Code(t) => MdEvent::Code(t.clone()),
        MdEvent::Html(hh) => {
            let hv = str_chars(hh.as_str());
            let fixed = fix_html_exec(hv, path);
            MdEvent::Html(chars_to_string(&fixed))
        },
        MdEvent::SoftBreak => MdEvent::SoftBreak,
        MdEvent::HardBreak => MdEvent::HardBreak,
        MdEvent::Rule => MdEvent::Rule,
        MdEvent::Other => MdEvent::Other,
    }
}

/// Emit one event: the markup it contributes, the construct left open, and
/// whether that construct still awaits its body; see [`spec_emit`].
pub fn render_to_docsite(e: &MdEvent, cur: Option<MarkDownEvents>, started: bool) -> (r: (
    String,
    Option<MarkDownEvents>,
    bool,
))
    ensures
        ({
            let (st, sc, sb) = spec_emit(e@, cur, started);
            r.0@ == st && r.1 == sc && r.2 == sb
        }),
{
    match e {
        MdEvent::Start(tag) => match tag {
            MdTag::Heading(l) => {
                let mut s = String::new();
                s.append("-- ds.h");
                push_digits(&mut s, *l);
                s.append(": ");
                (s, Some(MarkDownEvents::Heading), true)
            },
            MdTag::Paragraph => {
                let mut s = String::new();
                s.append("-- ds.markdown: ");
                proof {
                    assert(s@ =~= "-- ds.markdown: "@);
                }
                (s, Some(MarkDownEvents::Paragraph), true)
            },
            MdTag::Link { inline, dest } => {
                if *inline {
                    let trimmed = crate::text::replace_in_str(dest.as_str(), ".ftd", "");
                    let mut s = String::new();
                    s.append("(/");
                    s.append(trimmed.as_str());
                    s.append("/)");
                    proof {
                        reveal_strlit("");
                        assert(""@ =~= Seq::<char>::empty());
                    }
                    (s, Some(MarkDownEvents::Link), true)
                } else {
                    (String::new(), cur, true)
                }
            },
            MdTag::Image(d) => {
                let dotted = crate::text::replace_in_str(d.as_str(), "/", ".");
                let mut s = String::new();
                s.append("-- ds.image: \n                src: $assets.files");
                s.append(dotted.as_str());
                s.append("\n                align: center");
                (s, cur, true)
            },
            _ => (String::new(), cur, true),
        },
        MdEvent::Text(t) => {
            let s: String = match cur {
                Some(MarkDownEvents::Heading) => {
                    let mut s = String::new();
                    s.append(" ");
                    s.append(t.as_str());
                    s
                },
                Some(MarkDownEvents::Link) => {
                    let mut s = String::new();
                    s.append("[");
                    s.append(t.as_str());
                    s.append("]");
                    s
                },
                Some(MarkDownEvents::Paragraph) => t.clone(),
                None => String::new(),
            };
            (s, cur, false)
        },
        MdEvent::End(_) => (String::new(), cur, false),
        _ => (String::new(), cur, started),
    }
}

/// Fold one event's emission into the running state; see [`spec_step`].
fn exec_step(
    e: &MdEvent,
    cur: Option<MarkDownEvents>,
    started: bool,
    buf: String,
    out: String,
) -> (r: (Option<MarkDownEvents>, bool, String, String))
    ensures
        ({
            let st2 = spec_step(
                e@,
                RenderState { cur, started, buf: buf@, out: out@ },
            );
            r.0 == st2.cur && r.1 == st2.started && r.2@ == st2.buf && r.3@ == st2.out
        }),
{
    let (res, cur2, started2) = render_to_docsite(e, cur, started);
    if !started2 {
        let mut out2 = out;
        match cur2 {
            Some(MarkDownEvents::Link) => {
                out2.append(res.as_str());
                out2.append(buf.as_str());
                out2.append("\n");
            },
            Some(MarkDownEvents::Heading) => {
                out2.append(buf.as_str());
                out2.append(res.as_str());
                out2.append("\n");
            },
            _ => {
                out2.append(buf.as_str());
                out2.append("\n");
                out2.append(res.as_str());
            },
        }
        proof {
            assert(out2@ =~= spec_step(
                e@,
                RenderState { cur, started, buf: buf@, out: out@ },
            ).out);
        }
        (cur2, started2, String::new(), out2)
    } else {
        (cur2, started2, res, out)
    }
}

/// Transpile `text` into the output markup. With a known source path,
/// relative and fragment-only link destinations are rewritten to point back
/// at that chapter's permanent output location (the "print everything"
/// page's needs); with `None` they are rewritten relative to nothing.
/// `curly_quotes` turns on smart punctuation in the tokenizer.
pub fn render_markdown_with_path(text: &str, curly_quotes: bool, path: Option<&str>) -> (r: String)
    requires
        match path {
            Option::Some(p) => p@.len() > 0,
            Option::None => true,
        },
    ensures
        r@ == spec_render(
            markup_events(text@, curly_quotes),
            match path {
                Option::Some(p) => Option::Some(p@),
                Option::None => Option::None,
            },
        ),
{
    let events = lex_markup(text, curly_quotes);
    let pv: Option<Vec<char>> = match path {
        Some(p) => Some(str_chars(p)),
        None => None,
    };
    let ghost evs = crate::events::event_views(events@);
    let ghost pview = opt_chars(pv);
    let mut cur: Option<MarkDownEvents> = None;
    let mut started: bool = false;
    let mut buf = String::new();
    let mut out = String::new();
    let mut k: usize = 0;
    while k < events.len()
        invariant
            k <= events@.len(),
            evs == crate::events::event_views(events@),
            pview == opt_chars(pv),
            spec_fold(
                evs,
                k as int,
                RenderState { cur, started, buf: buf@, out: out@ },
                pview,
            ) == spec_render(evs, pview),
        decreases events@.len() - k,
    {
        proof {
            assert(evs[k as int] == events@[k as int]@);
        }
        let e2 = pipeline_event(&events[k], &pv);
        let is_table_start = match &e2 {
            MdEvent::Start(MdTag::Table) => true,
            _ => false,
        };
        let is_table_end = match &e2 {
            MdEvent::End(MdTag::Table) => true,
            _ => false,
        };
        if is_table_start {
            let mut open_html = String::new();
            open_html.append("<div class=\"table-wrapper\">");
            let opener = MdEvent::Html(open_html);
            proof {
                assert(opener@ == MdEventView::Html("<div class=\"table-wrapper\">"@));
            }
            let (c1, s1, b1, o1) = exec_step(&opener, cur, started, buf, out);
            let (c2, s2, b2, o2) = exec_step(&e2, c1, s1, b1, o1);
            cur = c2;
            started = s2;
            buf = b2;
            out = o2;
        } else if is_table_end {
            let (c1, s1, b1, o1) = exec_step(&e2, cur, started, buf, out);
            let mut close_html = String::new();
            close_html.append("</div>");
            let closer = MdEvent::Html(close_html);
            proof {
                assert(closer@ == MdEventView::Html("</div>"@));
            }
            let (c2, s2, b2, o2) = exec_step(&closer, c1, s1, b1, o1);
            cur = c2;
            started = s2;
            buf = b2;
            out = o2;
        } else {
            let (c1, s1, b1, o1) = exec_step(&e2, cur, started, buf, out);
            cur = c1;
            started = s1;
            buf = b1;
            out = o1;
        }
        k = k + 1;
    }
    out
}

/// Rewrite one link or image destination to its output location, as the
/// transpiler does before emission; see [`spec_fix_dest`].
pub fn rewrite_link_destination(dest: &str, path: Option<&str>) -> (r: String)
    ensures
        r@ == spec_fix_dest(
            dest@,
            match path {
                Option::Some(p) => Option::Some(p@),
                Option::None => Option::None,
            },
        ),
{
    let dv = str_chars(dest);
    let pv: Option<Vec<char>> = match path {
        Some(p) => Some(str_chars(p)),
        None => None,
    };
    let fixed = fix_dest_exec(&dv, &pv);
    chars_to_string(&fixed)
}

/// Transpile `text` with no source path: the common per-chapter rendering.
pub fn render_markdown(text: &str, curly_quotes: bool) -> (r: String)
    ensures
        r@ == spec_render(markup_events(text@, curly_quotes), Option::None),
{
    render_markdown_with_path(text, curly_quotes, None)
}

} // verus!
