//! The in-memory book: a tree of chapters, separators and part titles,
//! mirrored from a [`crate::summary::Summary`], with depth-first iteration
//! and a controlled mutate-every-item traversal.

use vstd::prelude::*;

use crate::section_number::SectionNumber;
use crate::summary::{opt_num_view, opt_str_view};
use vstd::string::{StrSliceExecFns, StringExecFns};

verus! {

broadcast use
    vstd::seq::axiom_seq_index_decreases,
    vstd::seq::axiom_seq_subrange_decreases,
    vstd::std_specs::vec::axiom_vec_decreases_to_view;

/// A chapter: its display name, raw Markdown content (empty for drafts), an
/// optional section number, nested items, its output and source locations
/// relative to the book's source directory (absent for drafts), and the
/// names of its ancestors, root first.
#[derive(Debug, PartialEq, Default)]
pub struct Chapter {
    pub name: String,
    pub content: String,
    pub number: Option<SectionNumber>,
    pub sub_items: Vec<BookItem>,
    pub path: Option<String>,
    pub source_path: Option<String>,
    pub parent_names: Vec<String>,
}

/// Any item a book can hold.
#[derive(Debug, PartialEq)]
pub enum BookItem {
    Chapter(Chapter),
    Separator,
    PartTitle(String),
}

/// A book: the ordered top-level sections.
#[derive(Debug, PartialEq, Default)]
pub struct Book {
    pub sections: Vec<BookItem>,
}

/// Mathematical image of a [`Chapter`].
pub struct ChapterView {
    pub name: Seq<char>,
    pub content: Seq<char>,
    pub number: Option<Seq<u32>>,
    pub sub_items: Seq<BookItemView>,
    pub path: Option<Seq<char>>,
    pub source_path: Option<Seq<char>>,
    pub parent_names: Seq<Seq<char>>,
}

/// Mathematical image of a [`BookItem`].
pub enum BookItemView {
    Chapter(ChapterView),
    Separator,
    PartTitle(Seq<char>),
}

/// The views of a sequence of strings.
pub open spec fn strs_view(s: Seq<String>) -> Seq<Seq<char>> {
    s.map_values(|x: String| x@)
}

/// The view of a chapter, nested items included.
pub open spec fn chapter_view(c: Chapter) -> ChapterView
    decreases c,
{
    ChapterView {
        name: c.name@,
        content: c.content@,
        number: opt_num_view(c.number),
        sub_items: vec_book_views(c.sub_items),
        path: opt_str_view(c.path),
        source_path: opt_str_view(c.source_path),
        parent_names: strs_view(c.parent_names@),
    }
}

/// The views of a vector of book items (recursive form).
pub open spec fn vec_book_views(v: Vec<BookItem>) -> Seq<BookItemView>
    decreases v,
{
    seq_book_views(v@)
}

/// Element-wise [`book_item_view`] by structural recursion.
pub open spec fn seq_book_views(s: Seq<BookItem>) -> Seq<BookItemView>
    decreases s,
{
    if s.len() == 0 {
        Seq::empty()
    } else {
        seq![book_item_view(s[0])] + seq_book_views(s.drop_first())
    }
}

/// The view of one book item.
pub open spec fn book_item_view(i: BookItem) -> BookItemView
    decreases i,
{
    match i {
        BookItem::Chapter(c) => BookItemView::Chapter(chapter_view(c)),
        BookItem::Separator => BookItemView::Separator,
        BookItem::PartTitle(t) => BookItemView::PartTitle(t@),
    }
}

/// The views of a sequence of book items.
pub open spec fn book_views(s: Seq<BookItem>) -> Seq<BookItemView> {
    s.map_values(|x: BookItem| book_item_view(x))
}

/// The recursive and the element-wise book-item views agree.
pub broadcast proof fn lemma_seq_book_views(s: Seq<BookItem>)
    ensures
        #[trigger] seq_book_views(s) == book_views(s),
    decreases s.len(),
{
    if s.len() == 0 {
        assert(seq_book_views(s) =~= book_views(s));
    } else {
        lemma_seq_book_views(s.drop_first());
        assert(seq_book_views(s) =~= book_views(s));
    }
}

impl View for Chapter {
    type V = ChapterView;

    open spec fn view(&self) -> ChapterView {
        chapter_view(*self)
    }
}

impl View for BookItem {
    type V = BookItemView;

    open spec fn view(&self) -> BookItemView {
        book_item_view(*self)
    }
}

impl View for Book {
    type V = Seq<BookItemView>;

    open spec fn view(&self) -> Seq<BookItemView> {
        book_views(self.sections@)
    }
}

// ---------------------------------------------------------------------------
// Copying helpers (the contracts speak of views, so copies are verified)
// ---------------------------------------------------------------------------

/// A copy of a vector of strings.
pub fn clone_strings(v: &Vec<String>) -> (r: Vec<String>)
    ensures
        r@ == v@,
{
    let mut out: Vec<String> = Vec::new();
    let mut k: usize = 0;
    while k < v.len()
        invariant
            k <= v@.len(),
            out@ == v@.take(k as int),
        decreases v@.len() - k,
    {
        out.push(v[k].clone());
        proof {
            assert(v@.take(k as int).push(v@[k as int]) =~= v@.take(k + 1));
        }
        k = k + 1;
    }
    proof {
        assert(v@.take(v@.len() as int) =~= v@);
    }
    out
}

pub fn clone_opt_str(o: &Option<String>) -> (r: Option<String>)
    ensures
        opt_str_view(r) == opt_str_view(*o),
{
    match o {
        Some(s) => Some(s.clone()),
        None => None,
    }
}

pub fn clone_opt_number(o: &Option<SectionNumber>) -> (r: Option<SectionNumber>)
    ensures
        opt_num_view(r) == opt_num_view(*o),
{
    match o {
        Some(sn) => {
            let mut out: Vec<u32> = Vec::new();
            let mut k: usize = 0;
            while k < sn.0.len()
                invariant
                    k <= sn.0@.len(),
                    out@ == sn.0@.take(k as int),
                decreases sn.0@.len() - k,
            {
                out.push(sn.0[k]);
                k = k + 1;
            }
            proof {
                assert(sn.0@.take(sn.0@.len() as int) =~= sn.0@);
            }
            Some(SectionNumber(out))
        },
        None => None,
    }
}

/// A copy of one book item, sub-items included.
pub fn clone_book_item(x: &BookItem) -> (r: BookItem)
    ensures
        book_item_view(r) == book_item_view(*x),
    decreases *x,
{
    match x {
        BookItem::Separator => BookItem::Separator,
        BookItem::PartTitle(t) => BookItem::PartTitle(t.clone()),
        BookItem::Chapter(c) => {
            let subs = clone_book_items_from(&c.sub_items, 0);
            let out = Chapter {
                name: c.name.clone(),
                content: c.content.clone(),
                number: clone_opt_number(&c.number),
                sub_items: subs,
                path: clone_opt_str(&c.path),
                source_path: clone_opt_str(&c.source_path),
                parent_names: clone_strings(&c.parent_names),
            };
            proof {
                lemma_seq_book_views(out.sub_items@);
                lemma_seq_book_views(c.sub_items@);
                assert(book_views(out.sub_items@) =~= book_views(c.sub_items@));
            }
            BookItem::Chapter(out)
        },
    }
}

/// Copies of the items of `v` from position `k` on.
fn clone_book_items_from(v: &Vec<BookItem>, k: usize) -> (r: Vec<BookItem>)
    requires
        k <= v@.len(),
    ensures
        r@.len() + k == v@.len(),
        forall|j: int|
            0 <= j < r@.len() ==> book_item_view(#[trigger] r@[j]) == book_item_view(v@[k + j]),
    decreases *v, v@.len() - k,
{
    if k >= v.len() {
        Vec::new()
    } else {
        proof {
            assert(decreases_to!(*v => v@));
            assert(decreases_to!(v@ => v@[k as int]));
        }
        let first = clone_book_item(&v[k]);
        let rest = clone_book_items_from(v, k + 1);
        let mut out: Vec<BookItem> = Vec::new();
        out.push(first);
        let mut rest2 = rest;
        out.append(&mut rest2);
        out
    }
}

// ---------------------------------------------------------------------------
// Depth-first iteration
// ---------------------------------------------------------------------------

/// The depth-first, pre-order flattening of a forest of book items: each
/// item before its sub-items, in source order.
pub open spec fn flatten_items(s: Seq<BookItemView>) -> Seq<BookItemView>
    decreases s,
{
    if s.len() == 0 {
        Seq::empty()
    } else {
        flatten_one(s[0]) + flatten_items(s.drop_first())
    }
}

/// The flattening of one item: the item itself, then its sub-items' forest.
pub open spec fn flatten_one(i: BookItemView) -> Seq<BookItemView>
    decreases i,
{
    match i {
        BookItemView::Chapter(c) => seq![i] + flatten_items(c.sub_items),
        other => seq![other],
    }
}

/// A depth-first iterator over a book's items: holds the pre-order
/// flattening and hands the items out front to back.
pub struct BookItems {
    pub items: Vec<BookItem>,
}

impl BookItems {
    /// The items not yet handed out.
    pub open spec fn remaining(&self) -> Seq<BookItemView> {
        book_views(self.items@)
    }

    /// The next item in depth-first order, or `None` at the end.
    pub fn next(&mut self) -> (r: Option<BookItem>)
        ensures
            old(self).remaining().len() == 0 ==> (r is None && final(self).remaining() == old(
                self,
            ).remaining()),
            old(self).remaining().len() > 0 ==> match r {
                Option::Some(x) => {
                    &&& book_item_view(x) == old(self).remaining()[0]
                    &&& final(self).remaining() == old(self).remaining().drop_first()
                },
                Option::None => false,
            },
    {
        if self.items.len() == 0 {
            None
        } else {
            let x = self.items.remove(0);
            proof {
                assert(book_views(final(self).items@) =~= book_views(
                    old(self).items@,
                ).drop_first());
            }
            Some(x)
        }
    }
}

/// The flattening of the items of `v` from position `k` on.
fn flatten_from(v: &Vec<BookItem>, k: usize) -> (r: Vec<BookItem>)
    requires
        k <= v@.len(),
    ensures
        book_views(r@) == flatten_items(book_views(v@).skip(k as int)),
    decreases *v, v@.len() - k, 1int,
{
    if k >= v.len() {
        proof {
            assert(book_views(v@).skip(k as int) =~= Seq::<BookItemView>::empty());
            assert(book_views(Seq::<BookItem>::empty()) =~= Seq::<BookItemView>::empty());
        }
        Vec::new()
    } else {
        proof {
            assert(decreases_to!(*v => v@));
            assert(decreases_to!(v@ => v@[k as int]));
        }
        let mut out = flatten_one_exec(&v[k]);
        let mut rest = flatten_from(v, k + 1);
        out.append(&mut rest);
        proof {
            let s = book_views(v@).skip(k as int);
            assert(s[0] == book_item_view(v@[k as int]));
            assert(s.drop_first() =~= book_views(v@).skip(k + 1));
            assert(book_views(out@) =~= flatten_one(s[0]) + flatten_items(s.drop_first()));
        }
        out
    }
}

/// The flattening of one item.
fn flatten_one_exec(x: &BookItem) -> (r: Vec<BookItem>)
    ensures
        book_views(r@) == flatten_one(book_item_view(*x)),
    decreases *x, 0int, 0int,
{
    let mut out: Vec<BookItem> = Vec::new();
    out.push(clone_book_item(x));
    match x {
        BookItem::Chapter(c) => {
            proof {
                assert(book_views(c.sub_items@).skip(0) =~= book_views(c.sub_items@));
            }
            let mut rest = flatten_from(&c.sub_items, 0);
            out.append(&mut rest);
            proof {
                lemma_seq_book_views(c.sub_items@);
                assert(book_views(out@) =~= flatten_one(book_item_view(*x)));
            }
            out
        },
        _ => {
            proof {
                assert(book_views(out@) =~= flatten_one(book_item_view(*x)));
            }
            out
        },
    }
}

impl Chapter {
    /// A chapter backed by a source file: `path` and `source_path` both name
    /// that file, and there is no section number and no sub-item yet.
    pub fn new(name: &str, content: String, path: &str, parent_names: Vec<String>) -> (r: Chapter)
        ensures
            r@.name == name@,
            r@.content == content@,
            r@.number is None,
            r@.sub_items.len() == 0,
            r@.path == Option::Some(path@),
            r@.source_path == Option::Some(path@),
            r@.parent_names == strs_view(parent_names@),
    {
        let c = Chapter {
            name: name.to_owned(),
            content,
            number: None,
            sub_items: Vec::new(),
            path: Some(path.to_owned()),
            source_path: Some(path.to_owned()),
            parent_names,
        };
        proof {
            assert(c@.sub_items =~= Seq::<BookItemView>::empty());
        }
        c
    }

    /// A draft chapter: no backing file, no content, no path.
    pub fn new_draft(name: &str, parent_names: Vec<String>) -> (r: Chapter)
        ensures
            r@.name == name@,
            r@.content.len() == 0,
            r@.number is None,
            r@.sub_items.len() == 0,
            r@.path is None,
            r@.source_path is None,
            r@.parent_names == strs_view(parent_names@),
    {
        let c = Chapter {
            name: name.to_owned(),
            content: String::new(),
            number: None,
            sub_items: Vec::new(),
            path: None,
            source_path: None,
            parent_names,
        };
        proof {
            assert(c@.sub_items =~= Seq::<BookItemView>::empty());
        }
        c
    }

    /// Is this a draft chapter (one without a source file)?
    pub fn is_draft_chapter(&self) -> (r: bool)
        ensures
            r == (self@.path is None),
    {
        self.path.is_none()
    }
}

impl Book {
    /// An empty book.
    pub fn new() -> (r: Book)
        ensures
            r@ == Seq::<BookItemView>::empty(),
    {
        let b = Book { sections: Vec::new() };
        proof {
            assert(book_views(Seq::<BookItem>::empty()) =~= Seq::<BookItemView>::empty());
        }
        b
    }

    /// A depth-first iterator over the book's items: every item of the tree,
    /// pre-order, each before its sub-items.
    pub fn iter(&self) -> (r: BookItems)
        ensures
            r.remaining() == flatten_items(self@),
    {
        proof {
            assert(book_views(self.sections@).skip(0) =~= book_views(self.sections@));
        }
        let items = flatten_from(&self.sections, 0);
        BookItems { items }
    }

    /// Append one item to the book's top level.
    pub fn push_item(&mut self, item: BookItem)
        ensures
            final(self)@ == old(self)@.push(book_item_view(item)),
    {
        let ghost iv = book_item_view(item);
        self.sections.push(item);
        proof {
            assert(book_views(self.sections@) =~= book_views(old(self).sections@).push(iv));
        }
    }
}

} // verus!

verus! {

// ---------------------------------------------------------------------------
// Recursive mutation
// ---------------------------------------------------------------------------

/// `b` is what applying the mutation `f` to the tree node `a` leaves behind:
/// `f` ran on an argument whose own fields are those of `a` but whose
/// sub-items had already been rewritten by `f` (children before self), and
/// `b` is what that call returned.
pub open spec fn maps_item<F: Fn(BookItem) -> BookItem>(f: F, a: BookItemView, b: BookItem) -> bool
    decreases a,
{
    match a {
        BookItemView::Chapter(cv) => exists|arg: BookItem|
            {
                &&& #[trigger] call_ensures(f, (arg,), b)
                &&& arg is Chapter
                &&& arg->Chapter_0.name@ == cv.name
                &&& arg->Chapter_0.content@ == cv.content
                &&& opt_num_view(arg->Chapter_0.number) == cv.number
                &&& opt_str_view(arg->Chapter_0.path) == cv.path
                &&& opt_str_view(arg->Chapter_0.source_path) == cv.source_path
                &&& strs_view(arg->Chapter_0.parent_names@) == cv.parent_names
                &&& maps_items(f, cv.sub_items, arg->Chapter_0.sub_items@)
            },
        _ => exists|arg: BookItem| {
            &&& #[trigger] call_ensures(f, (arg,), b)
            &&& book_item_view(arg) == a
        },
    }
}

/// Element-wise [`maps_item`], in order.
pub open spec fn maps_items<F: Fn(BookItem) -> BookItem>(
    f: F,
    a: Seq<BookItemView>,
    b: Seq<BookItem>,
) -> bool
    decreases a,
{
    if a.len() == 0 {
        b.len() == 0
    } else {
        &&& b.len() == a.len()
        &&& maps_item(f, a[0], b[0])
        &&& maps_items(f, a.drop_first(), b.drop_first())
    }
}

/// Apply `f` to one item, its sub-items first.
fn apply_item<F: Fn(BookItem) -> BookItem>(f: &F, x: &BookItem) -> (r: BookItem)
    requires
        forall|z: BookItem| call_requires(*f, (z,)),
    ensures
        maps_item(*f, book_item_view(*x), r),
    decreases *x, 1int,
{
    match x {
        BookItem::Chapter(c) => {
            let mid = apply_items_from(f, &c.sub_items, 0);
            let arg = BookItem::Chapter(
                Chapter {
                    name: c.name.clone(),
                    content: c.content.clone(),
                    number: clone_opt_number(&c.number),
                    sub_items: mid,
                    path: clone_opt_str(&c.path),
                    source_path: clone_opt_str(&c.source_path),
                    parent_names: clone_strings(&c.parent_names),
                },
            );
            let ghost argg = arg;
            let r = f(arg);
            proof {
                lemma_seq_book_views(c.sub_items@);
                assert(book_views(c.sub_items@).skip(0) =~= book_views(c.sub_items@));
                assert(call_ensures(*f, (argg,), r));
            }
            r
        },
        _ => {
            let arg = clone_book_item(x);
            let ghost argg = arg;
            let r = f(arg);
            proof {
                assert(call_ensures(*f, (argg,), r));
            }
            r
        },
    }
}

/// Apply `f` to every item of `v` from position `k` on, returning the
/// rewritten items.
fn apply_items_from<F: Fn(BookItem) -> BookItem>(f: &F, v: &Vec<BookItem>, k: usize) -> (r: Vec<
    BookItem,
>)
    requires
        k <= v@.len(),
        forall|z: BookItem| call_requires(*f, (z,)),
    ensures
        maps_items(*f, book_views(v@).skip(k as int), r@),
    decreases *v, v@.len() - k, 0int,
{
    if k >= v.len() {
        proof {
            assert(book_views(v@).skip(k as int) =~= Seq::<BookItemView>::empty());
        }
        Vec::new()
    } else {
        proof {
            assert(decreases_to!(*v => v@));
            assert(decreases_to!(v@ => v@[k as int]));
        }
        let first = apply_item(f, &v[k]);
        let rest = apply_items_from(f, v, k + 1);
        let mut out: Vec<BookItem> = Vec::new();
        out.push(first);
        let mut rest2 = rest;
        out.append(&mut rest2);
        proof {
            let s = book_views(v@).skip(k as int);
            assert(s[0] == book_item_view(v@[k as int]));
            assert(s.drop_first() =~= book_views(v@).skip(k + 1));
            assert(out@.drop_first() =~= rest@);
        }
        out
    }
}

/// Apply the mutation `f` to every item of the forest, pre-order over the
/// tree but children before their own chapter, and leave the rewritten
/// items in place.
pub fn for_each_mut<F: Fn(BookItem) -> BookItem>(f: &F, items: &mut Vec<BookItem>)
    requires
        forall|z: BookItem| call_requires(*f, (z,)),
    ensures
        maps_items(*f, book_views(old(items)@), final(items)@),
{
    proof {
        assert(book_views(items@).skip(0) =~= book_views(items@));
    }
    let out = apply_items_from(f, items, 0);
    *items = out;
}

impl Book {
    /// Apply the mutation `f` to every item in the book, children before
    /// their own chapter.
    pub fn for_each_mut<F: Fn(BookItem) -> BookItem>(&mut self, f: &F)
        requires
            forall|z: BookItem| call_requires(*f, (z,)),
        ensures
            maps_items(*f, old(self)@, final(self).sections@),
    {
        for_each_mut(f, &mut self.sections);
    }
}

} // verus!
