//! Content classification.
//!
//! A file is classified from a fixed-size prefix of its content: the ELF
//! magic marks a binary, a `#!` first line selects a script family by a
//! case-insensitive interpreter match, and everything else is text or
//! binary according to whether the prefix decodes as UTF-8.

use vstd::prelude::*;
use vstd::utf8::{decode_utf8, valid_utf8};
use crate::text;

verus! {

/// The classifier's verdict on a path's content.
#[derive(Debug, Clone, PartialEq, Eq, Structural)]
pub enum FileType {
    Symlink,
    ShellScript,
    PythonScript,
    PerlScript,
    OtherScript,
    ElfBinary,
    OtherBinary,
    OtherText,
}

/// What `str::to_lowercase` returns for the string: its Unicode lowercase
/// form, a function of the characters alone.
pub uninterp spec fn lower_of(s: Seq<char>) -> Seq<char>;

/// Relies on `str::to_lowercase`: the result depends on the characters
/// alone.
#[verifier::external_body]
pub(crate) fn lowercase(s: &str) -> (r: String)
    ensures
        r@ == lower_of(s@),
{
    s.to_lowercase()
}

/// Relies on `core::str::from_utf8`: it succeeds exactly on valid UTF-8 and
/// returns the decoded characters.
#[verifier::external_body]
pub(crate) fn utf8_to_string(bytes: &[u8]) -> (r: Option<String>)
    ensures
        r is Some <==> valid_utf8(bytes@),
        r matches Some(s) ==> s@ == decode_utf8(bytes@),
{
    match core::str::from_utf8(bytes) {
        Ok(s) => Some(s.to_string()),
        Err(_) => None,
    }
}

/// The four magic bytes that open every ELF file.
pub open spec fn elf_magic() -> Seq<u8> {
    seq![0x7fu8, 0x45u8, 0x4cu8, 0x46u8]
}

/// The buffer opens with the ELF magic.
pub open spec fn is_elf_prefix(bytes: Seq<u8>) -> bool {
    bytes.len() >= 4 && bytes.subrange(0, 4) == elf_magic()
}

/// The buffer opens with `#!`.
pub open spec fn has_shebang(bytes: Seq<u8>) -> bool {
    bytes.len() >= 2 && bytes[0] == 0x23 && bytes[1] == 0x21
}

/// The position of the first newline at or after `i`, or the length of the
/// buffer when there is none.
pub open spec fn newline_pos(bytes: Seq<u8>, i: int) -> int
    decreases bytes.len() - i when 0 <= i <= bytes.len()
{
    if i >= bytes.len() {
        i
    } else if bytes[i] == 0x0a {
        i
    } else {
        newline_pos(bytes, i + 1)
    }
}

proof fn lemma_newline_pos_bounds(bytes: Seq<u8>, i: int)
    requires
        0 <= i <= bytes.len(),
    ensures
        i <= newline_pos(bytes, i) <= bytes.len(),
    decreases bytes.len() - i,
{
    if i < bytes.len() && bytes[i] != 0x0a {
        lemma_newline_pos_bounds(bytes, i + 1);
    }
}

/// The script family selected by a lowercased shebang line: a shell for
/// `bash` or `sh`, then `python`, then `perl`, anything else an unknown
/// script.
pub open spec fn script_type_of(lowered: Seq<char>) -> FileType {
    if text::has_substr(lowered, "bash"@) || text::has_substr(lowered, "sh"@) {
        FileType::ShellScript
    } else if text::has_substr(lowered, "python"@) {
        FileType::PythonScript
    } else if text::has_substr(lowered, "perl"@) {
        FileType::PerlScript
    } else {
        FileType::OtherScript
    }
}

/// The classification of a content prefix: the ELF magic wins, then a `#!`
/// line whose UTF-8 text selects the script family, then plain text exactly
/// when the whole prefix is valid UTF-8. A shebang line that is not UTF-8
/// falls back to the text-or-binary verdict.
pub open spec fn classify_spec(bytes: Seq<u8>) -> FileType {
    if is_elf_prefix(bytes) {
        FileType::ElfBinary
    } else if has_shebang(bytes) && valid_utf8(bytes.subrange(2, newline_pos(bytes, 0))) {
        script_type_of(lower_of(decode_utf8(bytes.subrange(2, newline_pos(bytes, 0)))))
    } else if valid_utf8(bytes) {
        FileType::OtherText
    } else {
        FileType::OtherBinary
    }
}

/// Classify a content prefix.
pub fn classify_buffer(buf: &[u8]) -> (r: FileType)
    ensures
        r == classify_spec(buf@),
{
    let n = buf.len();
    if n >= 4 && buf[0] == 0x7f && buf[1] == 0x45 && buf[2] == 0x4c && buf[3] == 0x46 {
        proof {
            assert(buf@.subrange(0, 4) =~= elf_magic());
        }
        return FileType::ElfBinary;
    }
    proof {
        if buf@.len() >= 4 && buf@.subrange(0, 4) == elf_magic() {
            assert(buf@[0] == elf_magic()[0]);
            assert(buf@[1] == elf_magic()[1]);
            assert(buf@[2] == elf_magic()[2]);
            assert(buf@[3] == elf_magic()[3]);
        }
        assert(!is_elf_prefix(buf@));
    }
    if n >= 2 && buf[0] == 0x23 && buf[1] == 0x21 {
        let mut i: usize = 0;
        while i < n && buf[i] != 0x0a
            invariant
                n == buf@.len(),
                0 <= i <= n,
                newline_pos(buf@, 0) == newline_pos(buf@, i as int),
            decreases n - i,
        {
            i = i + 1;
        }
        let nl = i;
        proof {
            assert(newline_pos(buf@, nl as int) == nl);
            assert(buf@[0] != 0x0a && buf@[1] != 0x0a);
            assert(nl >= 2) by {
                assert(newline_pos(buf@, 0) == newline_pos(buf@, 1));
                assert(newline_pos(buf@, 1) == newline_pos(buf@, 2));
                lemma_newline_pos_bounds(buf@, 2);
            }
        }
        let sheb = vstd::slice::slice_subrange(buf, 2, nl);
        match utf8_to_string(sheb) {
            Some(line) => {
                let lowered = lowercase(line.as_str());
                let lchars = text::str_to_chars(lowered.as_str());
                let bash = text::str_to_chars("bash");
                let sh = text::str_to_chars("sh");
                let python = text::str_to_chars("python");
                let perl = text::str_to_chars("perl");
                if text::contains_chars(&lchars, &bash) || text::contains_chars(&lchars, &sh) {
                    return FileType::ShellScript;
                }
                if text::contains_chars(&lchars, &python) {
                    return FileType::PythonScript;
                }
                if text::contains_chars(&lchars, &perl) {
                    return FileType::PerlScript;
                }
                return FileType::OtherScript;
            },
            None => {},
        }
    }
    if utf8_to_string(buf).is_some() {
        FileType::OtherText
    } else {
        FileType::OtherBinary
    }
}

/// Any buffer whose first four bytes are the ELF magic classifies as an ELF
/// binary, whatever the remaining content holds.
pub proof fn lemma_elf_prefix_classifies_elf(bytes: Seq<u8>)
    requires
        bytes.len() >= 4,
        bytes[0] == 0x7f,
        bytes[1] == 0x45,
        bytes[2] == 0x4c,
        bytes[3] == 0x46,
    ensures
        classify_spec(bytes) == FileType::ElfBinary,
{
    assert(bytes.subrange(0, 4) =~= elf_magic());
}

} // verus!
