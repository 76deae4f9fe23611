//! The plain configuration data the build pipeline reads: book metadata,
//! build switches and the HTML renderer's options. Loading these from a
//! configuration file is the surrounding program's business; the library
//! holds the values and their defaults.

use vstd::prelude::*;

verus! {

/// Metadata about the book.
#[derive(Debug, PartialEq)]
pub struct BookConfig {
    pub title: Option<String>,
    pub authors: Vec<String>,
    pub description: Option<String>,
    /// Location of the book source relative to the book's root directory.
    pub src: String,
    pub multilingual: bool,
    pub language: Option<String>,
}

impl Default for BookConfig {
    /// No metadata, sources under `src`, language `en`.
    fn default() -> (r: BookConfig)
        ensures
            r.title is None,
            r.authors@.len() == 0,
            r.description is None,
            r.src@ == "src"@,
            !r.multilingual,
            r.language matches Option::Some(l) && l@ == "en"@,
    {
        BookConfig {
            title: None,
            authors: Vec::new(),
            description: None,
            src: "src".to_owned(),
            multilingual: false,
            language: Some("en".to_owned()),
        }
    }
}

/// Switches for the build procedure.
#[derive(Debug, PartialEq)]
pub struct BuildConfig {
    /// Where built artefacts go, relative to the book's root directory.
    pub build_dir: String,
    /// Create chapter files the summary names but that do not exist?
    pub create_missing: bool,
    /// Run the default preprocessors when the renderer supports them?
    pub use_default_preprocessors: bool,
    /// Extra directories that trigger a rebuild when watching.
    pub extra_watch_dirs: Vec<String>,
}

impl Default for BuildConfig {
    fn default() -> (r: BuildConfig)
        ensures
            r.build_dir@ == "ftd_output"@,
            r.create_missing,
            r.use_default_preprocessors,
            r.extra_watch_dirs@.len() == 0,
    {
        BuildConfig {
            build_dir: "ftd_output".to_owned(),
            create_missing: true,
            use_default_preprocessors: true,
            extra_watch_dirs: Vec::new(),
        }
    }
}

/// The Rust edition playground snippets compile under.
#[derive(Debug, Clone, Copy, PartialEq, Eq, Structural)]
pub enum RustEdition {
    E2021,
    E2018,
    E2015,
}

/// Rust language support options.
#[derive(Debug, Clone, Copy, PartialEq, Eq, Structural)]
pub struct RustConfig {
    pub edition: Option<RustEdition>,
}

impl Default for RustConfig {
    fn default() -> (r: RustConfig)
        ensures
            r.edition is None,
    {
        RustConfig { edition: None }
    }
}

/// How the print icon and page breaks behave.
#[derive(Debug, Clone, Copy, PartialEq, Eq, Structural)]
pub struct Print {
    pub enable: bool,
    pub page_break: bool,
}

impl Default for Print {
    fn default() -> (r: Print)
        ensures
            r.enable && r.page_break,
    {
        Print { enable: true, page_break: true }
    }
}

/// How sidebar chapters fold.
#[derive(Debug, Clone, Copy, PartialEq, Eq, Structural)]
pub struct Fold {
    pub enable: bool,
    pub level: u8,
}

impl Default for Fold {
    fn default() -> (r: Fold)
        ensures
            !r.enable && r.level == 0,
    {
        Fold { enable: false, level: 0 }
    }
}

/// How playground snippets behave.
#[derive(Debug, Clone, Copy, PartialEq, Eq, Structural)]
pub struct Playground {
    pub editable: bool,
    pub copyable: bool,
    pub copy_js: bool,
    pub line_numbers: bool,
    pub runnable: bool,
}

impl Default for Playground {
    fn default() -> (r: Playground)
        ensures
            !r.editable && r.copyable && r.copy_js && !r.line_numbers && r.runnable,
    {
        Playground {
            editable: false,
            copyable: true,
            copy_js: true,
            line_numbers: false,
            runnable: true,
        }
    }
}

/// The search feature's options.
#[derive(Debug, Clone, Copy, PartialEq, Eq, Structural)]
pub struct Search {
    pub enable: bool,
    pub limit_results: u32,
    pub teaser_word_count: u32,
    pub use_boolean_and: bool,
    pub boost_title: u8,
    pub boost_hierarchy: u8,
    pub boost_paragraph: u8,
    pub expand: bool,
    pub heading_split_level: u8,
    pub copy_js: bool,
}

impl Default for Search {
    fn default() -> (r: Search)
        ensures
            r == (Search {
                enable: true,
                limit_results: 30u32,
                teaser_word_count: 30u32,
                use_boolean_and: false,
                boost_title: 2u8,
                boost_hierarchy: 1u8,
                boost_paragraph: 1u8,
                expand: true,
                heading_split_level: 3u8,
                copy_js: true,
            }),
    {
        Search {
            enable: true,
            limit_results: 30,
            teaser_word_count: 30,
            use_boolean_and: false,
            boost_title: 2,
            boost_hierarchy: 1,
            boost_paragraph: 1,
            expand: true,
            heading_split_level: 3,
            copy_js: true,
        }
    }
}

/// The HTML renderer's options.
#[derive(Debug, PartialEq)]
pub struct HtmlConfig {
    pub theme: Option<String>,
    pub default_theme: Option<String>,
    pub preferred_dark_theme: Option<String>,
    pub curly_quotes: bool,
    pub mathjax_support: bool,
    pub copy_fonts: bool,
    pub google_analytics: Option<String>,
    pub additional_css: Vec<String>,
    pub additional_js: Vec<String>,
    pub fold: Fold,
    pub playground: Playground,
    pub print: Print,
    pub no_section_label: bool,
    pub search: Option<Search>,
    pub git_repository_url: Option<String>,
    pub git_repository_icon: Option<String>,
    pub input_404: Option<String>,
    pub site_url: Option<String>,
    pub cname: Option<String>,
    pub edit_url_template: Option<String>,
    pub live_reload_endpoint: Option<String>,
    /// Old-page to new-page redirects, in declaration order.
    pub redirect: Vec<(String, String)>,
}

impl Default for HtmlConfig {
    fn default() -> (r: HtmlConfig)
        ensures
            r.theme is None,
            r.default_theme is None,
            r.preferred_dark_theme is None,
            !r.curly_quotes,
            !r.mathjax_support,
            r.copy_fonts,
            r.google_analytics is None,
            r.additional_css@.len() == 0,
            r.additional_js@.len() == 0,
            r.fold == (Fold { enable: false, level: 0u8 }),
            r.playground == (Playground {
                editable: false,
                copyable: true,
                copy_js: true,
                line_numbers: false,
                runnable: true,
            }),
            r.print == (Print { enable: true, page_break: true }),
            !r.no_section_label,
            r.search is None,
            r.git_repository_url is None,
            r.git_repository_icon is None,
            r.input_404 is None,
            r.site_url is None,
            r.cname is None,
            r.edit_url_template is None,
            r.live_reload_endpoint is None,
            r.redirect@.len() == 0,
    {
        HtmlConfig {
            theme: None,
            default_theme: None,
            preferred_dark_theme: None,
            curly_quotes: false,
            mathjax_support: false,
            copy_fonts: true,
            google_analytics: None,
            additional_css: Vec::new(),
            additional_js: Vec::new(),
            fold: Fold::default(),
            playground: Playground::default(),
            print: Print::default(),
            no_section_label: false,
            search: None,
            git_repository_url: None,
            git_repository_icon: None,
            input_404: None,
            site_url: None,
            cname: None,
            edit_url_template: None,
            live_reload_endpoint: None,
            redirect: Vec::new(),
        }
    }
}

/// `a` and `b` joined as path segments: `b` alone when it is absolute, and
/// otherwise `a` and `b` with exactly one `/` between them.
pub open spec fn spec_join_path(a: Seq<char>, b: Seq<char>) -> Seq<char> {
    if b.len() > 0 && b[0] == '/' {
        b
    } else if a.len() > 0 && a.last() != '/' {
        a + seq!['/'] + b
    } else {
        a + b
    }
}

/// Join two path segments.
pub fn join_path(a: &str, b: &str) -> (r: String)
    ensures
        r@ == spec_join_path(a@, b@),
{
    let bv = crate::text::str_chars(b);
    let av = crate::text::str_chars(a);
    let mut out: Vec<char> = Vec::new();
    if bv.len() > 0 && bv[0] == '/' {
        let r = crate::text::chars_to_string(&bv);
        return r;
    }
    let mut k: usize = 0;
    while k < av.len()
        invariant
            k <= av@.len(),
            out@ == av@.take(k as int),
        decreases av@.len() - k,
    {
        out.push(av[k]);
        k = k + 1;
    }
    proof {
        assert(av@.take(av@.len() as int) =~= av@);
    }
    if av.len() > 0 && av[av.len() - 1] != '/' {
        out.push('/');
    }
    let mut k2: usize = 0;
    let ghost mid = out@;
    while k2 < bv.len()
        invariant
            k2 <= bv@.len(),
            out@ == mid + bv@.take(k2 as int),
        decreases bv@.len() - k2,
    {
        out.push(bv[k2]);
        proof {
            assert(mid + bv@.take(k2 as int) + seq![bv@[k2 as int]] =~= mid + bv@.take(k2 + 1));
        }
        k2 = k2 + 1;
    }
    proof {
        assert(mid + bv@.take(bv@.len() as int) =~= mid + bv@);
        assert(out@ =~= spec_join_path(a@, b@));
    }
    crate::text::chars_to_string(&out)
}

impl HtmlConfig {
    /// The theme directory under `root`: the configured one, or `theme`.
    pub fn theme_dir(&self, root: &str) -> (r: String)
        ensures
            r@ == match self.theme {
                Option::Some(d) => spec_join_path(root@, d@),
                Option::None => spec_join_path(root@, "theme"@),
            },
    {
        match &self.theme {
            Some(d) => join_path(root, d.as_str()),
            None => join_path(root, "theme"),
        }
    }
}

} // verus!
