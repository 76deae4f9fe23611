//! The transpiler and destination rewriting against concrete Markdown.

use fpm_importer::render::{
    normalize_info, render_markdown, render_markdown_with_path, rewrite_link_destination,
    MarkDownEvents,
};

#[test]
fn fragment_link_points_back_at_the_chapter() {
    let r = rewrite_link_destination("#foo", Some("guide/intro.md"));
    assert_eq!(r, "/guide/intro.ftd/#foo");
}

#[test]
fn fragment_link_without_path_stays() {
    assert_eq!(rewrite_link_destination("#foo", None), "#foo");
}

#[test]
fn relative_link_gets_directory_and_new_extension() {
    let r = rewrite_link_destination("other.md#section", Some("guide/intro.md"));
    assert_eq!(r, "guide/other.ftd#section");
    let dotted = rewrite_link_destination("./other.md#section", Some("guide/intro.md"));
    assert_eq!(dotted, "guide/./other.ftd#section");
    let plain = rewrite_link_destination("other.md", Some("intro.md"));
    assert_eq!(plain, "other.ftd");
}

#[test]
fn scheme_link_is_left_alone() {
    let r = rewrite_link_destination("https://x.com/y.md", Some("guide/intro.md"));
    assert_eq!(r, "https://x.com/y.md");
}

#[test]
fn info_string_normalizes_to_commas() {
    assert_eq!(normalize_info("lang rust,edition2021"), "lang,rust,edition2021");
    assert_eq!(normalize_info("a\tb"), "a,b");
    assert_eq!(normalize_info("a\nb"), "ab");
    assert_eq!(normalize_info(""), "");
}

#[test]
fn paragraph_renders_as_markdown_block() {
    let out = render_markdown("hello", false);
    assert_eq!(out, "-- ds.markdown: \nhello\n");
}

#[test]
fn heading_renders_with_level() {
    let out = render_markdown("# Hi", false);
    assert_eq!(out, "-- ds.h1:  Hi\n\n");
    let out2 = render_markdown("### Deep", false);
    assert_eq!(out2, "-- ds.h3:  Deep\n\n");
}

#[test]
fn inline_link_renders_reference_then_label() {
    let out = render_markdown("[x](y.md)", false);
    // The destination was rewritten to `y.ftd` and the emission strips
    // `.ftd`; the link opener replaces the paragraph opener still waiting
    // in the buffer, so the markdown opener never reaches the output.
    assert_eq!(out, "[x](/y/)\n\n\n");
}

#[test]
fn image_renders_flattened_asset_path() {
    let out = render_markdown("![alt](img/pic.png)", false);
    assert_eq!(
        out,
        "-- ds.image: \n                src: $assets.filesimg.pic.png\n                align: center\nalt\n\n"
    );
}

#[test]
fn destinations_rewrite_without_a_path_too() {
    assert_eq!(fpm_importer::render::rewrite_link_destination("a.md", None), "a.ftd");
    assert_eq!(
        fpm_importer::render::rewrite_link_destination("a.md.txt", None),
        "a.ftd"
    );
    // Raw HTML emits nothing in the core transpile path; the surrounding
    // text still renders.
    let out = render_markdown_with_path("text <a href=\"b.md\">x</a>", false, Some("d/p.md"));
    assert_eq!(out, "-- ds.markdown: \ntext \n\nx\n\n");
}

#[test]
fn construct_names() {
    assert_eq!(MarkDownEvents::Heading.as_str(), "heading");
    assert_eq!(MarkDownEvents::Paragraph.as_str(), "paragraph");
    assert_eq!(MarkDownEvents::Link.as_str(), "link");
}

#[test]
fn empty_markdown_renders_empty() {
    assert_eq!(render_markdown("", false), "");
}

#[test]
fn smart_punctuation_is_a_tokenizer_flag() {
    // With smart punctuation the tokenizer hands back curly quotes; the
    // transpiler passes the text through unchanged.
    let plain = render_markdown("'x'", false);
    let smart = render_markdown("'x'", true);
    assert_eq!(plain, "-- ds.markdown: \n'x'\n");
    // Each curly quote arrives as its own text event and so on its own line.
    assert_eq!(smart, "-- ds.markdown: \n\u{2018}\nx\n\u{2019}\n");
}

#[test]
fn code_blocks_emit_nothing() {
    let out = render_markdown("```lang rust\ncode\n```", false);
    // Fenced blocks are normalized but not emitted by the core path; the
    // text inside contributes nothing either (no construct is open).
    assert_eq!(out, "\n\n");
}
