//! Line selection, identifiers, paths and the book tree against concrete
//! values.

use fpm_importer::book::{Book, BookItem, Chapter};
use fpm_importer::config::{BookConfig, BuildConfig, HtmlConfig, Playground, Search};
use fpm_importer::paths::{get_404_output_file, normalize_path, path_to_root};
use fpm_importer::strings::{
    collapse_whitespace, id_from_content, normalize_id, partition_source, split_lines,
    take_anchored_lines, take_lines, take_rustdoc_include_anchored_lines,
    take_rustdoc_include_lines, unique_id_from_content, IdCounter,
};
use fpm_importer::text::bracket_escape;

#[test]
fn take_lines_selects_and_round_trips() {
    let s = "a\nb\nc\nd";
    assert_eq!(take_lines(s, 1, Some(3)), "b\nc");
    assert_eq!(take_lines(s, 0, None), "a\nb\nc\nd");
    assert_eq!(take_lines(s, 2, None), "c\nd");
    assert_eq!(take_lines(s, 10, None), "");
    assert_eq!(take_lines(s, 2, Some(1)), "");
    // Splitting the result again yields exactly the selected lines.
    assert_eq!(split_lines(&take_lines(s, 1, Some(3))), vec!["b", "c"]);
}

#[test]
fn take_lines_keeps_input_line_endings_only() {
    let s = "one\ntwo\n";
    assert_eq!(take_lines(s, 0, Some(2)), "one\ntwo");
    assert_eq!(take_lines(s, 1, Some(2)), "two");
}

#[test]
fn anchored_lines_are_extracted() {
    let s = "x\n// ANCHOR: test\nkeep1\nkeep2\n// ANCHOR_END: test\ny";
    assert_eq!(take_anchored_lines(s, "test"), "keep1\nkeep2");
    assert_eq!(take_anchored_lines(s, "other"), "");
}

#[test]
fn rustdoc_include_hides_out_of_range_lines() {
    let s = "a\nb\nc";
    assert_eq!(take_rustdoc_include_lines(s, 1, Some(2)), "# a\nb\n# c");
    assert_eq!(take_rustdoc_include_lines(s, 0, None), "a\nb\nc");
}

#[test]
fn rustdoc_anchored_hides_outside_lines() {
    let s = "before\n// ANCHOR: a\nshown\n// ANCHOR_END: a\nafter";
    assert_eq!(
        take_rustdoc_include_anchored_lines(s, "a"),
        "# before\nshown\n# after"
    );
}

#[test]
fn ids_are_normalized() {
    assert_eq!(normalize_id("Some Title!"), "some-title");
    assert_eq!(normalize_id("Under_score-dash"), "under_score-dash");
    assert_eq!(id_from_content("# <b>Tag</b> &amp; x"), "tag--x");
}

#[test]
fn unique_ids_count_up() {
    let mut counter = IdCounter::new();
    assert_eq!(unique_id_from_content("# Heading", &mut counter), "heading");
    assert_eq!(unique_id_from_content("# Heading", &mut counter), "heading-1");
    assert_eq!(unique_id_from_content("# Heading", &mut counter), "heading-2");
    assert_eq!(unique_id_from_content("# Other", &mut counter), "other");
}

#[test]
fn whitespace_collapses_to_one_space() {
    assert_eq!(collapse_whitespace("a  b c"), "a b c");
    assert_eq!(collapse_whitespace("a \t b"), "a b");
    assert_eq!(collapse_whitespace("a\tb"), "a\tb");
}

#[test]
fn source_partitions_into_header_and_body() {
    let (before, after) = partition_source("#![allow(x)]\n\nfn main(){}\n");
    assert_eq!(before, "#![allow(x)]\n\n");
    assert_eq!(after, "fn main(){}\n");
}

#[test]
fn brackets_escape_to_entities() {
    assert_eq!(bracket_escape("a<b>c"), "a&lt;b&gt;c");
    assert_eq!(bracket_escape("plain"), "plain");
}

#[test]
fn paths_normalize_and_climb() {
    assert_eq!(normalize_path("a\\b/c"), "a/b/c");
    assert_eq!(path_to_root("a/b/c.md"), "../../");
    assert_eq!(path_to_root("c.md"), "");
    assert_eq!(get_404_output_file(&None), "404.ftd");
    assert_eq!(get_404_output_file(&Some(String::from("missing.md"))), "missing.ftd");
}

#[test]
fn config_defaults_match_the_build() {
    let b = BookConfig::default();
    assert_eq!(b.src, "src");
    assert_eq!(b.language, Some(String::from("en")));
    let bu = BuildConfig::default();
    assert_eq!(bu.build_dir, "ftd_output");
    assert!(bu.create_missing);
    let h = HtmlConfig::default();
    assert!(!h.curly_quotes);
    assert_eq!(h.theme_dir("root"), "root/theme");
    assert_eq!(
        HtmlConfig { theme: Some(String::from("t")), ..HtmlConfig::default() }.theme_dir("r"),
        "r/t"
    );
    assert!(Playground::default().runnable);
    assert_eq!(Search::default().limit_results, 30);
}

#[test]
fn book_iterates_depth_first() {
    let kid = Chapter::new("kid", String::from("k"), "k.md", vec![String::from("top")]);
    let mut top = Chapter::new("top", String::from("t"), "t.md", Vec::new());
    top.sub_items.push(BookItem::Chapter(kid));
    let mut book = Book::new();
    book.push_item(BookItem::Chapter(top));
    book.push_item(BookItem::Separator);
    let mut names = Vec::new();
    let mut it = book.iter();
    while let Some(item) = it.next() {
        match item {
            BookItem::Chapter(c) => names.push(c.name),
            BookItem::Separator => names.push(String::from("---")),
            BookItem::PartTitle(t) => names.push(t),
        }
    }
    assert_eq!(names, vec!["top", "kid", "---"]);
}

#[test]
fn for_each_mut_rewrites_children_before_parents() {
    let kid = Chapter::new("kid", String::from("k"), "k.md", Vec::new());
    let mut top = Chapter::new("top", String::from("t"), "t.md", Vec::new());
    top.sub_items.push(BookItem::Chapter(kid));
    let mut book = Book::new();
    book.push_item(BookItem::Chapter(top));
    let f = |item: BookItem| -> BookItem {
        match item {
            BookItem::Chapter(mut c) => {
                let mut n = c.name.clone();
                n.push('!');
                c.name = n;
                BookItem::Chapter(c)
            }
            other => other,
        }
    };
    book.for_each_mut(&f);
    match &book.sections[0] {
        BookItem::Chapter(c) => {
            assert_eq!(c.name, "top!");
            match &c.sub_items[0] {
                BookItem::Chapter(k) => assert_eq!(k.name, "kid!"),
                other => panic!("expected a chapter, got {:?}", other),
            }
        }
        other => panic!("expected a chapter, got {:?}", other),
    }
}

#[test]
fn take_lines_of_empty_text_is_empty() {
    assert_eq!(take_lines("", 0, None), "");
    assert_eq!(take_lines("", 3, Some(5)), "");
}

#[test]
fn split_lines_strips_carriage_returns() {
    assert_eq!(split_lines("a\r\nb"), vec!["a", "b"]);
    assert_eq!(split_lines("a\n"), vec!["a"]);
    assert_eq!(split_lines(""), Vec::<String>::new());
}
