//! Detecting the external programs that some commands need: how each is probed and what a
//! probe's run means.

use vstd::prelude::*;

use crate::common::types::{arg_views, push_arg, ToolCommand, ToolRun};

verus! {

/// The external programs the OCR command needs.
#[derive(Debug, Clone, Copy)]
pub enum ExternalTool {
    /// The Tesseract OCR engine.
    Tesseract,
    /// Poppler's `pdftoppm`, which renders PDF pages as images.
    Poppler,
    /// `pdftk`, which joins PDF files.
    Pdftk,
}

/// The program that is run to probe for a tool, and its one argument.
pub open spec fn probe_of(tool: ExternalTool) -> (Seq<char>, Seq<char>) {
    match tool {
        ExternalTool::Tesseract => ("tesseract"@, "--version"@),
        ExternalTool::Poppler => ("pdftoppm"@, "-v"@),
        ExternalTool::Pdftk => ("pdftk"@, "--version"@),
    }
}

/// The command that probes for `tool`: the tool itself, asked for its version.
pub fn probe_command(tool: ExternalTool) -> (r: ToolCommand)
    ensures
        r.program@ == probe_of(tool).0,
        arg_views(r.args@) == seq![probe_of(tool).1],
{
    let mut args: Vec<String> = Vec::new();
    let program = match tool {
        ExternalTool::Tesseract => {
            push_arg(&mut args, "--version");
            String::from_str("tesseract")
        },
        ExternalTool::Poppler => {
            push_arg(&mut args, "-v");
            String::from_str("pdftoppm")
        },
        ExternalTool::Pdftk => {
            push_arg(&mut args, "--version");
            String::from_str("pdftk")
        },
    };
    assert(arg_views(Seq::<String>::empty()) =~= Seq::<Seq<char>>::empty());
    ToolCommand { program, args }
}

/// A tool is present when its probe started and reported success.
pub fn tool_available(run: &ToolRun) -> (r: bool)
    ensures
        r <==> *run is Succeeded,
{
    match run {
        ToolRun::Succeeded => true,
        _ => false,
    }
}

/// Each tool is probed by running it and asking for its version: `tesseract --version`,
/// `pdftoppm -v` and `pdftk --version`.
pub proof fn lemma_probe_table()
    ensures
        probe_of(ExternalTool::Tesseract) == ("tesseract"@, "--version"@),
        probe_of(ExternalTool::Poppler) == ("pdftoppm"@, "-v"@),
        probe_of(ExternalTool::Pdftk) == ("pdftk"@, "--version"@),
{
}

} // verus!
