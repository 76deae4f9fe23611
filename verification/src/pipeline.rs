//! The names and command strings of the pluggable pipeline stages. Running
//! the external commands is the surrounding program's business; the library
//! holds what identifies them.

use vstd::prelude::*;
use vstd::string::StringExecFns;

verus! {

/// An external preprocessor: its name and the command that runs it.
#[derive(Debug, PartialEq)]
pub struct CmdPreprocessor {
    name: String,
    cmd: String,
}

impl CmdPreprocessor {
    /// The preprocessor's name, mathematically.
    pub closed spec fn spec_name(&self) -> Seq<char> {
        self.name@
    }

    /// The preprocessor's command, mathematically.
    pub closed spec fn spec_cmd(&self) -> Seq<char> {
        self.cmd@
    }

    /// A preprocessor with the given name and command.
    pub fn new(name: String, cmd: String) -> (r: CmdPreprocessor)
        ensures
            r.spec_name() == name@,
            r.spec_cmd() == cmd@,
    {
        CmdPreprocessor { name, cmd }
    }

    /// The command this preprocessor invokes.
    pub fn cmd(&self) -> (r: &str)
        ensures
            r@ == self.spec_cmd(),
    {
        self.cmd.as_str()
    }

    /// The preprocessor's name.
    pub fn name(&self) -> (r: &str)
        ensures
            r@ == self.spec_name(),
    {
        self.name.as_str()
    }
}

/// An external renderer: its name and the command that runs it.
#[derive(Debug, PartialEq)]
pub struct CmdRenderer {
    name: String,
    cmd: String,
}

impl CmdRenderer {
    /// The renderer's name, mathematically.
    pub closed spec fn spec_name(&self) -> Seq<char> {
        self.name@
    }

    /// The renderer's command, mathematically.
    pub closed spec fn spec_cmd(&self) -> Seq<char> {
        self.cmd@
    }

    /// A renderer with the given name and command.
    pub fn new(name: String, cmd: String) -> (r: CmdRenderer)
        ensures
            r.spec_name() == name@,
            r.spec_cmd() == cmd@,
    {
        CmdRenderer { name, cmd }
    }

    /// The renderer's name.
    pub fn name(&self) -> (r: &str)
        ensures
            r@ == self.spec_name(),
    {
        self.name.as_str()
    }

    /// The command this renderer invokes.
    pub fn cmd(&self) -> (r: &str)
        ensures
            r@ == self.spec_cmd(),
    {
        self.cmd.as_str()
    }
}

/// The built-in HTML renderer's marker type; its file emission lives in the
/// surrounding program.
#[derive(Debug, PartialEq, Eq, Structural, Clone, Copy)]
pub struct HtmlHandlebars;

impl HtmlHandlebars {
    /// The built-in renderer.
    pub fn new() -> (r: HtmlHandlebars) {
        HtmlHandlebars
    }

    /// Its name.
    pub fn name(&self) -> (r: &str)
        ensures
            r@ == "html"@,
    {
        "html"
    }
}

} // verus!
