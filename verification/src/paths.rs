//! Lexical path manipulation.
//!
//! Paths are plain strings here; nothing in this module touches the
//! filesystem. A relative symlink target is resolved against the parent
//! directory of the link and then cleaned lexically.

use vstd::prelude::*;
use vstd::string::StrSliceExecFns;
use crate::text;

verus! {

/// A path is absolute when it starts with a slash.
pub open spec fn is_absolute_spec(s: Seq<char>) -> bool {
    s.len() > 0 && s[0] == '/'
}

/// Whether the path starts with a slash.
pub fn is_absolute(path: &str) -> (r: bool)
    ensures
        r == is_absolute_spec(path@),
{
    let n = path.unicode_len();
    if n == 0 {
        return false;
    }
    path.get_char(0) == '/'
}

/// The end of `s` truncated to `e` once trailing slashes are dropped.
pub open spec fn trim_slashes_end(s: Seq<char>, e: int) -> int
    decreases e,
{
    if e <= 0 {
        0
    } else if s[e - 1] == '/' {
        trim_slashes_end(s, e - 1)
    } else {
        e
    }
}

/// The index of the last slash of `s` strictly before `e`, or -1.
pub open spec fn last_slash_before(s: Seq<char>, e: int) -> int
    decreases e,
{
    if e <= 0 {
        -1
    } else if s[e - 1] == '/' {
        e - 1
    } else {
        last_slash_before(s, e - 1)
    }
}

proof fn lemma_trim_slashes_end_bounds(s: Seq<char>, e: int)
    requires
        0 <= e <= s.len(),
    ensures
        0 <= trim_slashes_end(s, e) <= e,
    decreases e,
{
    if e > 0 && s[e - 1] == '/' {
        lemma_trim_slashes_end_bounds(s, e - 1);
    }
}

proof fn lemma_last_slash_before_bounds(s: Seq<char>, e: int)
    requires
        0 <= e <= s.len(),
    ensures
        -1 <= last_slash_before(s, e) < e,
        last_slash_before(s, e) >= 0 ==> s[last_slash_before(s, e)] == '/',
        s.len() > 0 && s[0] == '/' && e > 0 ==> last_slash_before(s, e) >= 0,
    decreases e,
{
    if e > 0 && s[e - 1] != '/' {
        lemma_last_slash_before_bounds(s, e - 1);
    }
}

/// The parent directory of a path, read lexically: trailing slashes are
/// ignored, the final component is dropped, and the root is its own parent.
/// A single relative component has the empty parent.
pub open spec fn parent_of_spec(s: Seq<char>) -> Seq<char> {
    let e = trim_slashes_end(s, s.len() as int);
    if e == 0 {
        seq!['/']
    } else {
        let b = last_slash_before(s, e);
        if b == -1 {
            Seq::empty()
        } else {
            let p = trim_slashes_end(s, b);
            if p == 0 {
                seq!['/']
            } else {
                s.subrange(0, p)
            }
        }
    }
}

fn trim_slashes_end_exec(v: &Vec<char>, e: usize) -> (r: usize)
    requires
        e <= v@.len(),
    ensures
        r == trim_slashes_end(v@, e as int),
{
    let mut r = e;
    while r > 0 && v[r - 1] == '/'
        invariant
            r <= e <= v@.len(),
            trim_slashes_end(v@, e as int) == trim_slashes_end(v@, r as int),
        decreases r,
    {
        r = r - 1;
    }
    r
}

fn last_slash_before_exec(v: &Vec<char>, e: usize) -> (r: Option<usize>)
    requires
        e <= v@.len(),
    ensures
        r matches Some(i) ==> i == last_slash_before(v@, e as int),
        r is None ==> last_slash_before(v@, e as int) == -1,
{
    let mut r = e;
    while r > 0
        invariant
            r <= e <= v@.len(),
            last_slash_before(v@, e as int) == last_slash_before(v@, r as int),
        decreases r,
    {
        if v[r - 1] == '/' {
            return Some(r - 1);
        }
        r = r - 1;
    }
    None
}

/// The parent directory of a path, read lexically.
pub fn parent_of(path: &str) -> (r: String)
    ensures
        r@ == parent_of_spec(path@),
{
    let v = text::str_to_chars(path);
    let e = trim_slashes_end_exec(&v, v.len());
    proof {
        lemma_trim_slashes_end_bounds(v@, v@.len() as int);
    }
    if e == 0 {
        let mut s = String::new();
        s.push('/');
        proof {
            assert(s@ =~= seq!['/']);
        }
        return s;
    }
    match last_slash_before_exec(&v, e) {
        None => String::new(),
        Some(b) => {
            proof {
                lemma_last_slash_before_bounds(v@, e as int);
            }
            let p = trim_slashes_end_exec(&v, b);
            proof {
                lemma_trim_slashes_end_bounds(v@, b as int);
            }
            if p == 0 {
                let mut s = String::new();
                s.push('/');
                proof {
                    assert(s@ =~= seq!['/']);
                }
                s
            } else {
                let sub = text::chars_subrange(&v, 0, p);
                text::chars_to_string(&sub)
            }
        },
    }
}

/// A relative name appended under a directory, with one separating slash.
pub open spec fn join_spec(parent: Seq<char>, rel: Seq<char>) -> Seq<char> {
    if parent.len() == 0 {
        rel
    } else if parent.last() == '/' {
        parent + rel
    } else {
        parent + seq!['/'] + rel
    }
}

/// Append a relative name under a directory.
pub fn join_path(parent: &str, rel: &str) -> (r: String)
    ensures
        r@ == join_spec(parent@, rel@),
{
    let n = parent.unicode_len();
    if n == 0 {
        return rel.to_owned();
    }
    let mut s = parent.to_owned();
    if parent.get_char(n - 1) != '/' {
        s.push('/');
        proof {
            assert(s@ =~= parent@ + seq!['/']);
        }
    }
    s.append(rel);
    s
}

/// What `path_clean::clean` returns for the path: its purely lexical
/// simplification, with repeated slashes reduced, `.` components dropped and
/// `..` components resolved against their prefix.
pub uninterp spec fn cleaned_of(s: Seq<char>) -> Seq<char>;

/// Relies on `path_clean::clean`: a lexical transform of the path alone. It
/// never returns an empty path, and a rooted path stays rooted.
#[verifier::external_body]
pub(crate) fn clean_path(path: &str) -> (r: String)
    ensures
        r@ == cleaned_of(path@),
        r@.len() > 0,
        is_absolute_spec(path@) ==> is_absolute_spec(r@),
{
    let cleaned = path_clean::clean(path);
    match cleaned.into_os_string().into_string() {
        Ok(s) => s,
        Err(_) => String::from("."),
    }
}

/// Where a symlink at `current` pointing at `target` leads: an absolute
/// target is taken as is; a relative one is resolved against the parent
/// directory of `current` and cleaned lexically.
pub open spec fn resolve_target_spec(current: Seq<char>, target: Seq<char>) -> Seq<char> {
    if is_absolute_spec(target) {
        target
    } else {
        cleaned_of(join_spec(parent_of_spec(current), target))
    }
}

/// Resolve a symlink target read at `current` to the path it denotes.
pub fn resolve_target(current: &str, target: &str) -> (r: String)
    ensures
        r@ == resolve_target_spec(current@, target@),
        is_absolute_spec(current@) ==> is_absolute_spec(r@),
{
    if is_absolute(target) {
        target.to_owned()
    } else {
        let p = parent_of(current);
        let joined = join_path(p.as_str(), target);
        proof {
            if is_absolute_spec(current@) {
                lemma_parent_absolute(current@);
            }
        }
        clean_path(joined.as_str())
    }
}

/// The start of the path component that ends at `e`.
pub open spec fn comp_start(s: Seq<char>, e: int) -> int
    decreases e,
{
    if e <= 0 {
        0
    } else if s[e - 1] == '/' {
        e
    } else {
        comp_start(s, e - 1)
    }
}

proof fn lemma_comp_start_bounds(s: Seq<char>, e: int)
    requires
        0 <= e <= s.len(),
    ensures
        0 <= comp_start(s, e) <= e,
    decreases e,
{
    if e > 0 && s[e - 1] != '/' {
        lemma_comp_start_bounds(s, e - 1);
    }
}

/// The base name of the path before position `e`, read lexically as the
/// platform does: trailing slashes and `.` components are ignored, a final
/// `..` component means there is no base name, and otherwise the final
/// component is the base name.
pub open spec fn file_name_from(s: Seq<char>, e: int) -> Seq<char>
    decreases e,
{
    if e <= 0 {
        Seq::empty()
    } else if s[e - 1] == '/' {
        file_name_from(s, e - 1)
    } else {
        let b = comp_start(s, e);
        let comp = s.subrange(b, e);
        if comp == seq!['.'] {
            file_name_from(s, e - 1)
        } else if comp == seq!['.', '.'] {
            Seq::empty()
        } else {
            comp
        }
    }
}

/// The base name of a path, or the empty string when it has none.
pub open spec fn file_name_spec(s: Seq<char>) -> Seq<char> {
    file_name_from(s, s.len() as int)
}

fn comp_start_exec(v: &Vec<char>, e: usize) -> (r: usize)
    requires
        e <= v@.len(),
    ensures
        r == comp_start(v@, e as int),
{
    let mut r = e;
    while r > 0 && v[r - 1] != '/'
        invariant
            r <= e <= v@.len(),
            comp_start(v@, e as int) == comp_start(v@, r as int),
        decreases r,
    {
        r = r - 1;
    }
    r
}

/// The base name of a path, or the empty string when it has none.
pub fn file_name_of(path: &str) -> (r: String)
    ensures
        r@ == file_name_spec(path@),
{
    let v = text::str_to_chars(path);
    let mut e = v.len();
    loop
        invariant
            e <= v@.len(),
            file_name_spec(path@) == file_name_from(v@, e as int),
        decreases e,
    {
        if e == 0 {
            return String::new();
        }
        if v[e - 1] == '/' {
            e = e - 1;
            continue ;
        }
        let b = comp_start_exec(&v, e);
        proof {
            lemma_comp_start_bounds(v@, e as int);
        }
        let comp = text::chars_subrange(&v, b, e);
        if comp.len() == 1 && comp[0] == '.' {
            proof {
                assert(comp@ =~= seq!['.']);
            }
            e = e - 1;
            continue ;
        }
        proof {
            if comp@ == seq!['.'] {
                assert(comp@.len() == 1 && comp@[0] == '.');
            }
            if comp@ == seq!['.', '.'] {
                assert(comp@.len() == 2 && comp@[0] == '.' && comp@[1] == '.');
            }
        }
        if comp.len() == 2 && comp[0] == '.' && comp[1] == '.' {
            proof {
                assert(comp@ =~= seq!['.', '.']);
            }
            return String::new();
        }
        return text::chars_to_string(&comp);
    }
}

/// The lexical parent of an absolute path is absolute, and so is anything
/// joined under it.
proof fn lemma_parent_absolute(s: Seq<char>)
    requires
        is_absolute_spec(s),
    ensures
        is_absolute_spec(parent_of_spec(s)),
        forall|rel: Seq<char>| is_absolute_spec(#[trigger] join_spec(parent_of_spec(s), rel)),
{
    let e = trim_slashes_end(s, s.len() as int);
    lemma_trim_slashes_end_bounds(s, s.len() as int);
    if e != 0 {
        lemma_last_slash_before_bounds(s, e);
        let b = last_slash_before(s, e);
        let p = trim_slashes_end(s, b);
        lemma_trim_slashes_end_bounds(s, b);
        if p != 0 {
            assert(s.subrange(0, p)[0] == s[0]);
        }
    }
    assert forall|rel: Seq<char>| is_absolute_spec(#[trigger] join_spec(parent_of_spec(s), rel)) by {
        let par = parent_of_spec(s);
        if par.last() == '/' {
            assert((par + rel)[0] == par[0]);
        } else {
            assert((par + seq!['/'] + rel)[0] == par[0]);
        }
    }
}

} // verus!
