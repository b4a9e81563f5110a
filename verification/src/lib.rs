//! What does a filesystem entry point ultimately execute?
//!
//! Package managers that install by content address leave behind layers of
//! indirection: symlinks, generated wrapper scripts, and relinking binary
//! stubs. This library follows every layer and classifies each hop,
//! producing a [`SymlinkChain`] from the path it started at down to the
//! terminal file.
//!
//! The traversal itself performs no I/O. [`Resolution`] is a state machine
//! that asks for one filesystem fact at a time (a [`ProbeRequest`]) and is
//! fed the answer (a [`ProbeReply`]); a thin driver around it supplies the
//! answers from the real filesystem. Content classification, the wrapper
//! heuristics, name normalization, lexical path arithmetic and the JSON
//! rendering of chains are all ordinary functions here, each specified
//! exactly and verified.

use vstd::prelude::*;

mod chain;
mod classify;
mod cli;
mod detect;
mod error;
mod extract;
mod json;
mod output;
mod paths;
mod resolver;
mod text;

pub use chain::FileKind;
pub use chain::FileLocation;
pub use chain::LinkType;
pub use chain::NodeMetadata;
pub use chain::ScriptType;
pub use chain::SymlinkChain;
pub use chain::SymlinkNode;
pub use chain::WrapperKind;
pub use chain::chain_complete;
pub use chain::chain_paths_absolute;
pub use classify::FileType;
pub use classify::classify_buffer;
pub use classify::classify_spec;
pub use classify::lemma_elf_prefix_classifies_elf;
pub use cli::Args;
pub use cli::Cli;
pub use detect::NixBinaryWrapperDetector;
pub use detect::NixProgramNameDetector;
pub use detect::NixStorePathDetector;
pub use detect::WrapperDetector;
pub use detect::normalize_program_name;
pub use detect::programs_match;
pub use detect::store_path_candidates;
pub use error::SymseekError;
pub use extract::extract_strings_from_binary;
pub use json::JsonChain;
pub use json::JsonLink;
pub use json::LinkRepr;
pub use json::format_path;
pub use json::json_of_chain;
pub use json::lemma_json_round_trip;
pub use json::parse_chain_spec;
pub use output::OutputFormat;
pub use output::TreeChars;
pub use output::link_type_info;
pub use paths::file_name_of;
pub use paths::is_absolute;
pub use paths::parent_of;
pub use paths::resolve_target;
pub use resolver::MOutcome;
pub use resolver::MState;
pub use resolver::Phase;
pub use resolver::ProbeReply;
pub use resolver::ProbeRequest;
pub use resolver::Resolution;
pub use resolver::StepOutcome;
pub use resolver::abs_state;
pub use resolver::lemma_elf_name_match_takes_wrapper_hop;
pub use resolver::lemma_elf_without_candidates_is_terminal;
pub use resolver::lemma_shell_marker_takes_wrapper_hop;
pub use resolver::lemma_simple_chain_resolves;
pub use resolver::resolution_inv;
pub use resolver::run_m;
pub use resolver::start_m;
pub use resolver::step_m;

verus! {

} // verus!
