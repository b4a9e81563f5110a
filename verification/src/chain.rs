//! The chain data model: the entities a resolution produces.
//!
//! A `SymlinkChain` records one traversal: the `origin` it started from and
//! one `SymlinkNode` per hop, in traversal order. Hops are appended once and
//! never changed afterwards.

use vstd::prelude::*;

verus! {

/// How one hop of a chain redirects (or ends) the traversal.
#[derive(Debug, Clone, PartialEq, Eq, Structural)]
pub enum LinkType {
    Symlink,
    Wrapper(WrapperKind),
    Terminal(FileKind),
}

/// The shape of a wrapper hop: a redirecting binary or a redirecting script.
#[derive(Debug, Clone, PartialEq, Eq, Structural)]
pub enum WrapperKind {
    Binary,
    Text(ScriptType),
}

/// The interpreter family of a script wrapper. Only `Shell` is produced
/// today; the others are reserved.
#[derive(Debug, Clone, PartialEq, Eq, Structural)]
pub enum ScriptType {
    Shell,
    Python,
    Perl,
    Unknown,
}

/// Coarse classification of a terminal file as seen from outside.
#[derive(Debug, Clone, PartialEq, Eq, Structural)]
pub enum FileKind {
    Binary,
    Text,
}

/// Where a looked-up name was found: as a path relative to the current
/// directory, or as one or more matches on the search path.
#[derive(Debug, Clone)]
pub enum FileLocation {
    CurrentDirectory(String),
    PathEnvironment(Vec<String>),
}

/// Reserved per-hop metadata; never populated today.
#[derive(Debug, Clone)]
pub struct NodeMetadata {
    pub is_broken: bool,
    pub file_type: Option<String>,
}

/// One hop of a resolution chain.
#[derive(Debug, Clone)]
pub struct SymlinkNode {
    pub target: String,
    pub is_final: bool,
    pub link_type: LinkType,
    pub metadata: Option<NodeMetadata>,
}

/// A resolution chain: the origin path and the ordered hops found from it.
#[derive(Debug, Clone)]
pub struct SymlinkChain {
    pub origin: String,
    pub links: Vec<SymlinkNode>,
}

impl SymlinkChain {
    /// Create a new chain starting from the given origin path, with no hops.
    pub fn new(origin: String) -> (chain: Self)
        ensures
            chain.origin@ == origin@,
            chain.links@.len() == 0,
    {
        Self { origin, links: Vec::new() }
    }

    /// Append one hop to the chain. Every hop is appended exactly once, with
    /// no metadata, and earlier hops are untouched.
    pub fn add_link(&mut self, target: String, is_final: bool, link_type: LinkType)
        ensures
            final(self).origin == old(self).origin,
            final(self).links@.len() == old(self).links@.len() + 1,
            final(self).links@.subrange(0, old(self).links@.len() as int) == old(self).links@,
            final(self).links@.last().target@ == target@,
            final(self).links@.last().is_final == is_final,
            final(self).links@.last().link_type == link_type,
            final(self).links@.last().metadata is None,
    {
        self.links.push(SymlinkNode { target, is_final, link_type, metadata: None });
        proof {
            assert(final(self).links@.subrange(0, old(self).links@.len() as int) =~= old(
                self,
            ).links@);
        }
    }

    /// Whether the chain holds no hops yet.
    pub fn is_empty(&self) -> (r: bool)
        ensures
            r == (self.links@.len() == 0),
    {
        self.links.len() == 0
    }
}

/// A finished, successful chain: every hop but the last is an intermediate
/// one, and exactly the last hop is marked final and terminal.
pub open spec fn chain_complete(chain: SymlinkChain) -> bool {
    &&& chain.links@.len() > 0
    &&& forall|i: int|
        0 <= i < chain.links@.len() ==> (#[trigger] chain.links@[i].is_final <==> i
            == chain.links@.len() - 1)
    &&& chain.links@.last().link_type is Terminal
}

/// The origin and every hop target of the chain are absolute paths.
pub open spec fn chain_paths_absolute(chain: SymlinkChain) -> bool {
    &&& crate::paths::is_absolute_spec(chain.origin@)
    &&& forall|i: int|
        0 <= i < chain.links@.len() ==> crate::paths::is_absolute_spec(
            (#[trigger] chain.links@[i]).target@,
        )
}

} // verus!
