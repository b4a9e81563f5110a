//! Wrapper detection heuristics.
//!
//! Two ordered heuristics look for evidence that a file redirects to another
//! path. The marker-based one searches the content for a generator marker
//! followed by a single-quoted store path. The name-matching one collects
//! every store path mentioned in the content whose normalized base name
//! equals that of the probed file; whether such a candidate actually exists
//! on disk is for the caller to check, in order of appearance.

use vstd::prelude::*;
use vstd::string::StrSliceExecFns;
use crate::paths;
use crate::text;

verus! {

/// What the regular-expression engine finds for a pattern over a text: the
/// non-overlapping matches, leftmost first, in order of appearance (empty
/// when the pattern does not compile).
pub uninterp spec fn regex_find_all_spec(pat: Seq<char>, text: Seq<char>) -> Seq<Seq<char>>;

/// Relies on `regex::Regex::new` and `Regex::find_iter`: the matches are a
/// function of the pattern and the text alone.
#[verifier::external_body]
fn regex_find_all(pattern: &str, text: &str) -> (r: Vec<String>)
    ensures
        r.deep_view() == regex_find_all_spec(pattern@, text@),
{
    match regex::Regex::new(pattern) {
        Ok(re) => re.find_iter(text).map(|m| m.as_str().to_string()).collect(),
        Err(_) => Vec::new(),
    }
}

/// What the regular-expression engine captures as the first group of the
/// first match of a pattern over a text, or nothing (also when the pattern
/// does not compile).
pub uninterp spec fn regex_capture1_spec(pat: Seq<char>, text: Seq<char>) -> Option<Seq<char>>;

/// Relies on `regex::Regex::new` and `Regex::captures`: the first capture
/// group of the first match is a function of the pattern and the text alone.
#[verifier::external_body]
fn regex_capture1(pattern: &str, text: &str) -> (r: Option<String>)
    ensures
        r.deep_view() == regex_capture1_spec(pattern@, text@),
{
    let re = match regex::Regex::new(pattern) {
        Ok(re) => re,
        Err(_) => return None,
    };
    match re.captures(text) {
        Some(caps) => caps.get(1).map(|m| m.as_str().to_string()),
        None => None,
    }
}

/// A name with one leading dot removed.
pub open spec fn strip_dot_prefix(s: Seq<char>) -> Seq<char> {
    if s.len() > 0 && s[0] == '.' {
        s.drop_first()
    } else {
        s
    }
}

/// A program name normalized: one leading dot is dropped, then a trailing
/// `-unwrapped` suffix is dropped if present, else a trailing `-wrapped`
/// suffix.
pub open spec fn normalize_name_spec(s: Seq<char>) -> Seq<char> {
    let t = strip_dot_prefix(s);
    if "-unwrapped"@.is_suffix_of(t) {
        t.take(t.len() - "-unwrapped"@.len())
    } else if "-wrapped"@.is_suffix_of(t) {
        t.take(t.len() - "-wrapped"@.len())
    } else {
        t
    }
}

/// Normalize a program name: strip one leading `.`, then a trailing
/// `-unwrapped` or `-wrapped` suffix, in that order of preference.
pub fn normalize_program_name(name: &str) -> (r: String)
    ensures
        r@ == normalize_name_spec(name@),
{
    let v = text::str_to_chars(name);
    let t = if v.len() > 0 && v[0] == '.' {
        text::chars_subrange(&v, 1, v.len())
    } else {
        text::chars_subrange(&v, 0, v.len())
    };
    proof {
        assert(t@ =~= strip_dot_prefix(name@));
    }
    let unwrapped = text::str_to_chars("-unwrapped");
    let wrapped = text::str_to_chars("-wrapped");
    if text::ends_with_chars(&t, &unwrapped) {
        let kept = text::chars_subrange(&t, 0, t.len() - unwrapped.len());
        proof {
            assert(kept@ =~= t@.take(t@.len() - "-unwrapped"@.len()));
        }
        text::chars_to_string(&kept)
    } else if text::ends_with_chars(&t, &wrapped) {
        let kept = text::chars_subrange(&t, 0, t.len() - wrapped.len());
        proof {
            assert(kept@ =~= t@.take(t@.len() - "-wrapped"@.len()));
        }
        text::chars_to_string(&kept)
    } else {
        text::chars_to_string(&t)
    }
}

/// Two paths name the same program: both base names normalize to the same
/// non-empty name.
pub open spec fn programs_match_spec(current: Seq<char>, candidate: Seq<char>) -> bool {
    let a = normalize_name_spec(paths::file_name_spec(current));
    let b = normalize_name_spec(paths::file_name_spec(candidate));
    a.len() > 0 && a == b
}

/// Whether two paths refer to the same program once wrapped and unwrapped
/// name variants are normalized.
pub fn programs_match(current: &str, candidate: &str) -> (r: bool)
    ensures
        r == programs_match_spec(current@, candidate@),
{
    let cn = paths::file_name_of(current);
    let dn = paths::file_name_of(candidate);
    let a = normalize_program_name(cn.as_str());
    let b = normalize_program_name(dn.as_str());
    if a.as_str().unicode_len() == 0 {
        return false;
    }
    a == b
}

/// A match with stray trailing quote and dollar characters removed.
pub open spec fn strip_trailing_junk(s: Seq<char>) -> Seq<char>
    decreases s.len(),
{
    if s.len() > 0 && (s.last() == '"' || s.last() == '\'' || s.last() == '$') {
        strip_trailing_junk(s.drop_last())
    } else {
        s
    }
}

fn strip_trailing_junk_exec(v: &Vec<char>) -> (r: Vec<char>)
    ensures
        r@ == strip_trailing_junk(v@),
{
    let mut e = v.len();
    proof {
        assert(v@.subrange(0, v@.len() as int) =~= v@);
    }
    while e > 0 && (v[e - 1] == '"' || v[e - 1] == '\'' || v[e - 1] == '$')
        invariant
            e <= v@.len(),
            strip_trailing_junk(v@) == strip_trailing_junk(v@.subrange(0, e as int)),
        decreases e,
    {
        proof {
            let pre = v@.subrange(0, e as int);
            assert(pre.last() == v@[e - 1]);
            assert(pre.drop_last() =~= v@.subrange(0, e - 1));
        }
        e = e - 1;
    }
    proof {
        let pre = v@.subrange(0, e as int);
        if e > 0 {
            assert(pre.last() == v@[e - 1]);
        }
        assert(strip_trailing_junk(pre) == pre);
    }
    text::chars_subrange(v, 0, e)
}

/// The text with every backslash-newline join removed, scanning left to
/// right.
pub open spec fn strip_continuations(s: Seq<char>) -> Seq<char>
    decreases s.len(),
{
    if s.len() == 0 {
        Seq::empty()
    } else if s.len() >= 2 && s[0] == '\\' && s[1] == '\n' {
        strip_continuations(s.skip(2))
    } else {
        seq![s[0]] + strip_continuations(s.drop_first())
    }
}

fn strip_continuations_exec(v: &Vec<char>) -> (r: Vec<char>)
    ensures
        r@ == strip_continuations(v@),
{
    let n = v.len();
    let mut out: Vec<char> = Vec::new();
    let mut i: usize = 0;
    proof {
        assert(v@.skip(0) =~= v@);
    }
    while i < n
        invariant
            n == v@.len(),
            i <= n,
            out@ + strip_continuations(v@.skip(i as int)) == strip_continuations(v@),
        decreases n - i,
    {
        let ghost prev = out@;
        proof {
            assert(v@.skip(i as int)[0] == v@[i as int]);
            if i + 1 < n {
                assert(v@.skip(i as int)[1] == v@[i as int + 1]);
            }
            assert(v@.skip(i as int).drop_first() =~= v@.skip(i as int + 1));
        }
        if i + 1 < n && v[i] == '\\' && v[i + 1] == '\n' {
            proof {
                assert(v@.skip(i as int).skip(2) =~= v@.skip(i as int + 2));
            }
            i = i + 2;
        } else {
            out.push(v[i]);
            proof {
                assert(out@ + strip_continuations(v@.skip(i as int + 1)) =~= prev + (seq![
                    v@[i as int],
                ] + strip_continuations(v@.skip(i as int + 1))));
            }
            i = i + 1;
        }
    }
    proof {
        assert(v@.skip(n as int) =~= Seq::<char>::empty());
        assert(out@ =~= out@ + strip_continuations(v@.skip(n as int)));
    }
    out
}

/// What the marker-based heuristic finds in a content text probed at `own`:
/// line-continuation joins are removed first, and in that normalized text
/// the first single-quoted argument of the generator marker is accepted
/// when it lies under the store prefix and differs from the probed path
/// itself. Normalizing before any matching means a generator may split
/// even the marker word itself across lines.
pub open spec fn marker_target_spec(own: Seq<char>, content: Seq<char>) -> Option<Seq<char>> {
    let normalized = strip_continuations(content);
    if !text::has_substr(normalized, "makeCWrapper"@) {
        None
    } else {
        match regex_capture1_spec("makeCWrapper\\s+'([^']+)'"@, normalized) {
            Some(cand) => if "/nix/store/"@.is_prefix_of(cand) && cand != own {
                Some(cand)
            } else {
                None
            },
            None => None,
        }
    }
}

/// One accepted name-matching candidate: it lies under the store prefix,
/// its normalized base name equals that of the probed path, and it is not
/// the probed path itself.
pub open spec fn acceptable_candidate(own: Seq<char>, cand: Seq<char>) -> bool {
    &&& "/nix/store/"@.is_prefix_of(cand)
    &&& programs_match_spec(own, cand)
    &&& cand != own
}

/// The acceptable candidates among the given matches, each with stray
/// trailing characters stripped, in order of appearance.
pub open spec fn candidates_from(own: Seq<char>, finds: Seq<Seq<char>>) -> Seq<Seq<char>>
    decreases finds.len(),
{
    if finds.len() == 0 {
        Seq::empty()
    } else {
        let c = strip_trailing_junk(finds[0]);
        let rest = candidates_from(own, finds.drop_first());
        if acceptable_candidate(own, c) {
            seq![c] + rest
        } else {
            rest
        }
    }
}

/// The name-matching candidates of a content text probed at `own`: every
/// store-path match, stripped and accepted, in order of appearance.
pub open spec fn store_candidates_spec(own: Seq<char>, content: Seq<char>) -> Seq<Seq<char>> {
    candidates_from(
        own,
        regex_find_all_spec("/nix/store/[a-z0-9]+-[^/\\s]+(?:/[^/\\s]+)*"@, content),
    )
}

/// Collect the name-matching candidates found in a content text, in order
/// of appearance. Whether each exists as a regular file is for the caller
/// to check, first hit wins.
pub fn store_path_candidates(path: &str, content: &str) -> (r: Vec<String>)
    ensures
        r.deep_view() == store_candidates_spec(path@, content@),
{
    let finds = regex_find_all("/nix/store/[a-z0-9]+-[^/\\s]+(?:/[^/\\s]+)*", content);
    let ghost fv = finds.deep_view();
    let store_prefix = text::str_to_chars("/nix/store/");
    let path_chars = text::str_to_chars(path);
    let mut out: Vec<String> = Vec::new();
    let mut i: usize = 0;
    proof {
        assert(fv.skip(0) =~= fv);
    }
    while i < finds.len()
        invariant
            fv == finds.deep_view(),
            fv.len() == finds@.len(),
            forall|k: int| 0 <= k < finds@.len() ==> fv[k] == #[trigger] finds@[k]@,
            store_prefix@ == "/nix/store/"@,
            path_chars@ == path@,
            i <= finds@.len(),
            out.deep_view() + candidates_from(path@, fv.skip(i as int)) == candidates_from(
                path@,
                fv,
            ),
        decreases finds@.len() - i,
    {
        let ghost prev = out.deep_view();
        proof {
            assert(fv.skip(i as int)[0] == fv[i as int]);
            assert(fv.skip(i as int).drop_first() =~= fv.skip(i as int + 1));
        }
        let mchars = text::str_to_chars(finds[i].as_str());
        let stripped = strip_trailing_junk_exec(&mchars);
        let is_store = text::starts_with_chars(&stripped, &store_prefix);
        let cand = text::chars_to_string(&stripped);
        let names = programs_match(path, cand.as_str());
        let differs = !text::chars_eq(&stripped, &path_chars);
        if is_store && names && differs {
            out.push(cand);
            proof {
                assert(out.deep_view() =~= prev.push(stripped@));
                assert(out.deep_view() + candidates_from(path@, fv.skip(i as int + 1)) =~= prev
                    + (seq![stripped@] + candidates_from(path@, fv.skip(i as int + 1))));
            }
        }
        i = i + 1;
    }
    proof {
        assert(fv.skip(finds@.len() as int) =~= Seq::<Seq<char>>::empty());
        assert(out.deep_view() =~= out.deep_view() + candidates_from(
            path@,
            fv.skip(finds@.len() as int),
        ));
    }
    out
}

/// Anything under the store prefix is an absolute path.
pub proof fn lemma_store_prefixed_absolute(cand: Seq<char>)
    requires
        "/nix/store/"@.is_prefix_of(cand),
    ensures
        cand.len() > 0 && cand[0] == '/',
{
    reveal_strlit("/nix/store/");
    assert(cand.subrange(0, "/nix/store/"@.len() as int)[0] == cand[0]);
}

/// Every candidate the name-matching heuristic hands out is acceptable: it
/// lies under the store prefix, its name matches, and it differs from the
/// probed path.
pub proof fn lemma_candidates_acceptable(own: Seq<char>, finds: Seq<Seq<char>>)
    ensures
        forall|i: int|
            0 <= i < candidates_from(own, finds).len() ==> acceptable_candidate(
                own,
                #[trigger] candidates_from(own, finds)[i],
            ),
    decreases finds.len(),
{
    if finds.len() > 0 {
        lemma_candidates_acceptable(own, finds.drop_first());
        let c = strip_trailing_junk(finds[0]);
        let rest = candidates_from(own, finds.drop_first());
        let whole = candidates_from(own, finds);
        assert forall|i: int| 0 <= i < whole.len() implies acceptable_candidate(
            own,
            #[trigger] whole[i],
        ) by {
            if acceptable_candidate(own, c) {
                assert(whole == seq![c] + rest);
                if i == 0 {
                    assert(whole[0] == c);
                } else {
                    assert(whole[i] == rest[i - 1]);
                }
            } else {
                assert(whole == rest);
            }
        }
    }
}

/// A target the marker-based heuristic returns is an absolute path.
pub proof fn lemma_marker_target_absolute(own: Seq<char>, content: Seq<char>)
    ensures
        marker_target_spec(own, content) matches Some(t) ==> t.len() > 0 && t[0] == '/',
{
    let m = marker_target_spec(own, content);
    if m is Some {
        lemma_store_prefixed_absolute(m->0);
    }
}

/// The marker-based wrapper heuristic: a generator marker followed by a
/// single-quoted store path.
pub struct NixBinaryWrapperDetector;

/// The name-matching wrapper heuristic over every store path a content
/// mentions.
pub struct NixStorePathDetector;

/// The name-matching heuristic under its stand-alone name.
pub struct NixProgramNameDetector;

/// A wrapper-detection heuristic, named for reporting.
pub trait WrapperDetector {
    fn name(&self) -> &'static str;
}

impl WrapperDetector for NixBinaryWrapperDetector {
    fn name(&self) -> &'static str {
        "NixBinaryWrapperDetector"
    }
}

impl WrapperDetector for NixStorePathDetector {
    fn name(&self) -> &'static str {
        "NixStorePathDetector"
    }
}

impl WrapperDetector for NixProgramNameDetector {
    fn name(&self) -> &'static str {
        "NixProgramNameDetector"
    }
}

impl NixBinaryWrapperDetector {
    /// The redirect target of a marker-based wrapper whose content is
    /// given, or nothing.
    pub fn detect(&self, path: &str, content: &str) -> (r: Option<String>)
        ensures
            r.deep_view() == marker_target_spec(path@, content@),
    {
        let chars = text::str_to_chars(content);
        let normalized = strip_continuations_exec(&chars);
        let marker = text::str_to_chars("makeCWrapper");
        if !text::contains_chars(&normalized, &marker) {
            return None;
        }
        let norm = text::chars_to_string(&normalized);
        match regex_capture1("makeCWrapper\\s+'([^']+)'", norm.as_str()) {
            Some(cand) => {
                let cand_chars = text::str_to_chars(cand.as_str());
                let store_prefix = text::str_to_chars("/nix/store/");
                let path_chars = text::str_to_chars(path);
                if text::starts_with_chars(&cand_chars, &store_prefix) && !text::chars_eq(
                    &cand_chars,
                    &path_chars,
                ) {
                    Some(cand)
                } else {
                    None
                }
            },
            None => None,
        }
    }
}

impl NixStorePathDetector {
    /// The name-matching candidates of the given content, in order of
    /// appearance; the caller accepts the first that exists on disk.
    pub fn candidates(&self, path: &str, content: &str) -> (r: Vec<String>)
        ensures
            r.deep_view() == store_candidates_spec(path@, content@),
    {
        store_path_candidates(path, content)
    }
}

impl NixProgramNameDetector {
    /// The name-matching candidates of the given content, in order of
    /// appearance; the caller accepts the first that is a regular file.
    pub fn candidates(&self, path: &str, content: &str) -> (r: Vec<String>)
        ensures
            r.deep_view() == store_candidates_spec(path@, content@),
    {
        store_path_candidates(path, content)
    }
}

} // verus!
