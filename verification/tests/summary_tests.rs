//! The summary parser against concrete tables of contents.

use fpm_importer::loader::{chapter_locations, load_book_from_contents, FileOutcome};
use fpm_importer::summary::{parse_summary, Link, Summary, SummaryError, SummaryItem};
use fpm_importer::SectionNumber;

fn link(items: &[SummaryItem], i: usize) -> &Link {
    match &items[i] {
        SummaryItem::Link(l) => l,
        other => panic!("expected a link, got {:?}", other),
    }
}

#[test]
fn end_to_end_scenario() {
    let text = "# Summary\n[Introduction](intro.md)\n# Part One\n- [Chapter 1](ch1.md)\n  - [Chapter 1a](ch1a.md)\n- [Chapter 2](ch2.md)\n";
    let s = parse_summary(text).expect("parses");
    assert_eq!(s.title, Some(String::from("Summary")));

    assert_eq!(s.prefix_chapters.len(), 1);
    let intro = link(&s.prefix_chapters, 0);
    assert_eq!(intro.name, "Introduction");
    assert_eq!(intro.location, Some(String::from("intro.md")));
    assert_eq!(intro.number, None);

    assert_eq!(s.numbered_chapters.len(), 3);
    assert_eq!(
        s.numbered_chapters[0],
        SummaryItem::PartTitle(String::from("Part One"))
    );
    let ch1 = link(&s.numbered_chapters, 1);
    assert_eq!(ch1.name, "Chapter 1");
    assert_eq!(ch1.number, Some(SectionNumber(vec![1])));
    assert_eq!(ch1.nested_items.len(), 1);
    let ch1a = link(&ch1.nested_items, 0);
    assert_eq!(ch1a.name, "Chapter 1a");
    assert_eq!(ch1a.number, Some(SectionNumber(vec![1, 1])));
    let ch2 = link(&s.numbered_chapters, 2);
    assert_eq!(ch2.number, Some(SectionNumber(vec![2])));

    assert_eq!(s.suffix_chapters.len(), 0);
}

#[test]
fn parsing_is_deterministic() {
    let text = "# T\n[pre](p.md)\n- [One](a.md)\n  - [Two](b.md)\n";
    let a = parse_summary(text);
    let b = parse_summary(text);
    assert_eq!(a, b);
}

#[test]
fn numbering_continues_across_parts() {
    let text = "- [One](a.md)\n- [Two](b.md)\n# Part B\n- [Three](c.md)\n";
    let s = parse_summary(text).expect("parses");
    let one = link(&s.numbered_chapters, 0);
    let two = link(&s.numbered_chapters, 1);
    assert_eq!(s.numbered_chapters[2], SummaryItem::PartTitle(String::from("Part B")));
    let three = link(&s.numbered_chapters, 3);
    assert_eq!(one.number, Some(SectionNumber(vec![1])));
    assert_eq!(two.number, Some(SectionNumber(vec![2])));
    assert_eq!(three.number, Some(SectionNumber(vec![3])));
    assert_eq!(one.number.as_ref().unwrap().render(), "1.");
    assert_eq!(three.number.as_ref().unwrap().render(), "3.");
}

#[test]
fn draft_chapter_has_no_path_and_no_content() {
    let text = "- [A](a.md)\n- [Draft]()\n";
    let s = parse_summary(text).expect("parses");
    let draft = link(&s.numbered_chapters, 1);
    assert_eq!(draft.location, None);
    assert_eq!(draft.number, Some(SectionNumber(vec![2])));

    let locations = chapter_locations(&s);
    assert_eq!(locations, vec![String::from("a.md")]);
    let pairs = fpm_importer::loader::chapter_location_names(&s);
    assert_eq!(pairs, vec![(String::from("a.md"), String::from("A"))]);

    let files = vec![FileOutcome::Content(String::from("hello"))];
    let book = load_book_from_contents(&s, &files).expect("loads");
    assert_eq!(book.sections.len(), 2);
    match &book.sections[1] {
        fpm_importer::book::BookItem::Chapter(c) => {
            assert!(c.is_draft_chapter());
            assert_eq!(c.path, None);
            assert_eq!(c.content, "");
        }
        other => panic!("expected a chapter, got {:?}", other),
    }
}

#[test]
fn suffix_list_is_an_error_with_location() {
    let text = "[pre](a.md)\n- [One](one.md)\n\n[suf](s.md)\n- [bad](b.md)\n";
    let err = parse_summary(text).expect_err("must be rejected");
    assert_eq!(err, SummaryError::SuffixChaptersAfterList { line: 5, col: 1 });
}

#[test]
fn nested_item_must_be_a_link() {
    let text = "- [One](one.md)\n- plain words\n";
    let err = parse_summary(text).expect_err("must be rejected");
    // The text of the offending item starts two characters into line 2.
    assert_eq!(err, SummaryError::NestedChapterMustBeLink { line: 2, col: 3 });
}

#[test]
fn first_line_errors_have_one_based_columns() {
    let err = parse_summary("- plain\n").expect_err("must be rejected");
    // The offending text starts two characters into line 1: column 3.
    assert_eq!(err, SummaryError::NestedChapterMustBeLink { line: 1, col: 3 });
}

#[test]
fn separators_and_escapes() {
    let text = "[a](x%20y.md)\n\n---\n\n[b](b.md)\n";
    let s = parse_summary(text).expect("parses");
    let a = link(&s.prefix_chapters, 0);
    assert_eq!(a.location, Some(String::from("x y.md")));
    assert_eq!(s.prefix_chapters[1], SummaryItem::Separator);
}

#[test]
fn empty_summary_parses() {
    let s = parse_summary("").expect("parses");
    assert_eq!(s, Summary::default());
}

#[test]
fn update_section_numbers_shifts_roots_and_nested() {
    let text = "- [One](a.md)\n  - [Sub](b.md)\n";
    let s = parse_summary(text).expect("parses");
    let mut items = s.numbered_chapters;
    fpm_importer::summary::update_section_numbers(&mut items, 0, 10);
    let one = link(&items, 0);
    assert_eq!(one.number, Some(SectionNumber(vec![11])));
    let sub = link(&one.nested_items, 0);
    assert_eq!(sub.number, Some(SectionNumber(vec![11, 1])));
}

#[test]
fn get_last_link_finds_the_last_link() {
    let items = vec![
        SummaryItem::Separator,
        SummaryItem::Link(Link::new("a", "a.md")),
        SummaryItem::Separator,
    ];
    assert_eq!(fpm_importer::summary::get_last_link(&items), Some(1));
    let none: Vec<SummaryItem> = vec![SummaryItem::Separator];
    assert_eq!(fpm_importer::summary::get_last_link(&none), None);
}

#[test]
fn section_number_renders_dotted() {
    assert_eq!(SectionNumber(vec![1, 2, 3]).render(), "1.2.3.");
    assert_eq!(SectionNumber(vec![]).render(), "0");
    assert_eq!(SectionNumber::new().render(), "0");
}

#[test]
fn bom_is_stripped_when_loading() {
    let text = "- [A](a.md)\n";
    let s = parse_summary(text).expect("parses");
    let files = vec![FileOutcome::Content(String::from("\u{feff}hi"))];
    let book = load_book_from_contents(&s, &files).expect("loads");
    match &book.sections[0] {
        fpm_importer::book::BookItem::Chapter(c) => assert_eq!(c.content, "hi"),
        other => panic!("expected a chapter, got {:?}", other),
    }
}

#[test]
fn missing_file_is_an_error() {
    let text = "- [A](a.md)\n";
    let s = parse_summary(text).expect("parses");
    let files = vec![FileOutcome::NotFound];
    let err = load_book_from_contents(&s, &files).expect_err("fails");
    assert_eq!(
        err,
        fpm_importer::loader::LoadError::ChapterNotFound { location: String::from("a.md") }
    );
}

#[test]
fn parent_names_thread_down_the_tree() {
    let text = "- [Top](t.md)\n  - [Kid](k.md)\n";
    let s = parse_summary(text).expect("parses");
    let files = vec![
        FileOutcome::Content(String::from("t")),
        FileOutcome::Content(String::from("k")),
    ];
    let book = load_book_from_contents(&s, &files).expect("loads");
    match &book.sections[0] {
        fpm_importer::book::BookItem::Chapter(c) => {
            assert_eq!(c.parent_names, Vec::<String>::new());
            match &c.sub_items[0] {
                fpm_importer::book::BookItem::Chapter(k) => {
                    assert_eq!(k.parent_names, vec![String::from("Top")]);
                    assert_eq!(k.path, Some(String::from("k.md")));
                }
                other => panic!("expected a chapter, got {:?}", other),
            }
        }
        other => panic!("expected a chapter, got {:?}", other),
    }
}

#[test]
fn missing_chapter_seed_escapes_brackets() {
    assert_eq!(
        fpm_importer::loader::missing_chapter_seed("A <B>"),
        "# A &lt;B&gt;\n"
    );
}
