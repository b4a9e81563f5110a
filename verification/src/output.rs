//! Presentation helpers shared by the renderers.

use vstd::prelude::*;
use crate::chain::{FileKind, LinkType, ScriptType, WrapperKind};

verus! {

/// How a chain is rendered.
#[derive(Debug, Clone, Copy, PartialEq, Eq, Structural)]
pub enum OutputFormat {
    /// Human-readable tree format (the default).
    Tree,
    /// Machine-readable JSON format.
    Json,
}

impl Default for OutputFormat {
    /// The default rendering is the tree.
    fn default() -> (r: Self)
        ensures
            r == OutputFormat::Tree,
    {
        OutputFormat::Tree
    }
}

/// The drawing characters of the tree renderer.
#[derive(Debug)]
pub struct TreeChars {
    pub branch: &'static str,
    pub last: &'static str,
    pub connector: &'static str,
}

impl Default for TreeChars {
    /// The box-drawing characters used by default.
    fn default() -> (r: Self)
        ensures
            r.branch@ == "\u{251c}"@,
            r.last@ == "\u{2514}"@,
            r.connector@ == "\u{2500}"@,
    {
        TreeChars { branch: "\u{251c}", last: "\u{2514}", connector: "\u{2500}" }
    }
}

/// The bracketed label the tree renderer appends after a hop of this type.
pub open spec fn link_type_label(lt: LinkType) -> Seq<char> {
    match lt {
        LinkType::Symlink => Seq::empty(),
        LinkType::Wrapper(WrapperKind::Binary) => " [binary wrapper]"@,
        LinkType::Wrapper(WrapperKind::Text(ScriptType::Shell)) => " [sh wrapper]"@,
        LinkType::Wrapper(WrapperKind::Text(ScriptType::Python)) => " [py wrapper]"@,
        LinkType::Wrapper(WrapperKind::Text(ScriptType::Perl)) => " [pl wrapper]"@,
        LinkType::Wrapper(WrapperKind::Text(ScriptType::Unknown)) => " [script wrapper]"@,
        LinkType::Terminal(FileKind::Binary) => " [binary]"@,
        LinkType::Terminal(FileKind::Text) => " [text]"@,
    }
}

/// The indicator and label the tree renderer shows for a hop of this type.
/// The indicator is reserved and empty today.
pub fn link_type_info(link_type: &LinkType) -> (r: (&'static str, String))
    ensures
        r.0@ == Seq::<char>::empty(),
        r.1@ == link_type_label(*link_type),
{
    proof {
        reveal_strlit("");
    }
    let label: String = match link_type {
        LinkType::Symlink => String::new(),
        LinkType::Wrapper(WrapperKind::Binary) => String::from_str(" [binary wrapper]"),
        LinkType::Wrapper(WrapperKind::Text(ScriptType::Shell)) => String::from_str(
            " [sh wrapper]",
        ),
        LinkType::Wrapper(WrapperKind::Text(ScriptType::Python)) => String::from_str(
            " [py wrapper]",
        ),
        LinkType::Wrapper(WrapperKind::Text(ScriptType::Perl)) => String::from_str(
            " [pl wrapper]",
        ),
        LinkType::Wrapper(WrapperKind::Text(ScriptType::Unknown)) => String::from_str(
            " [script wrapper]",
        ),
        LinkType::Terminal(FileKind::Binary) => String::from_str(" [binary]"),
        LinkType::Terminal(FileKind::Text) => String::from_str(" [text]"),
    };
    ("", label)
}

} // verus!
