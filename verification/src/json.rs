//! The JSON rendering of a chain, and its parser.
//!
//! A chain is rendered as an object with `origin` and `links`, each link as
//! an object with `path`, `type`, the optional `wrapper_kind` and
//! `file_kind`, and `is_final` (omitted when false). The emitter and the
//! parser are exact inverses: parsing an emitted chain recovers it whole.

use vstd::prelude::*;
use crate::chain::{FileKind, LinkType, ScriptType, SymlinkChain, SymlinkNode, WrapperKind};
use crate::paths;
use crate::text;

verus! {

/// JSON representation of a symlink chain.
#[derive(Debug)]
pub struct JsonChain {
    pub origin: String,
    pub links: Vec<JsonLink>,
}

/// JSON representation of a link in the chain.
#[derive(Debug)]
pub struct JsonLink {
    pub path: String,
    pub link_type: String,
    pub wrapper_kind: Option<String>,
    pub file_kind: Option<String>,
    pub is_final: bool,
}

/// The mathematical content of one rendered link.
#[verifier::ext_equal]
pub struct LinkRepr {
    pub path: Seq<char>,
    pub link_type: Seq<char>,
    pub wrapper_kind: Option<Seq<char>>,
    pub file_kind: Option<Seq<char>>,
    pub is_final: bool,
}

/// The content of a rendered link.
pub open spec fn link_view(l: JsonLink) -> LinkRepr {
    LinkRepr {
        path: l.path@,
        link_type: l.link_type@,
        wrapper_kind: l.wrapper_kind.deep_view(),
        file_kind: l.file_kind.deep_view(),
        is_final: l.is_final,
    }
}

/// The contents of a rendered link list.
pub open spec fn links_repr(ls: Seq<JsonLink>) -> Seq<LinkRepr> {
    ls.map_values(|l: JsonLink| link_view(l))
}

/// The `type` string of a hop.
pub open spec fn type_label(lt: LinkType) -> Seq<char> {
    match lt {
        LinkType::Symlink => "symlink"@,
        LinkType::Wrapper(_) => "wrapper"@,
        LinkType::Terminal(_) => "terminal"@,
    }
}

/// The `wrapper_kind` string of a hop, for wrapper hops alone.
pub open spec fn wrapper_label(lt: LinkType) -> Option<Seq<char>> {
    match lt {
        LinkType::Wrapper(WrapperKind::Binary) => Some("binary"@),
        LinkType::Wrapper(WrapperKind::Text(ScriptType::Shell)) => Some("shell_script"@),
        LinkType::Wrapper(WrapperKind::Text(ScriptType::Python)) => Some("python_script"@),
        LinkType::Wrapper(WrapperKind::Text(ScriptType::Perl)) => Some("perl_script"@),
        LinkType::Wrapper(WrapperKind::Text(ScriptType::Unknown)) => Some("unknown_script"@),
        _ => None,
    }
}

/// The `file_kind` string of a hop, for terminal hops alone.
pub open spec fn file_label(lt: LinkType) -> Option<Seq<char>> {
    match lt {
        LinkType::Terminal(FileKind::Binary) => Some("binary"@),
        LinkType::Terminal(FileKind::Text) => Some("text"@),
        _ => None,
    }
}

/// What a sequence of recorded hops renders to.
pub open spec fn chain_reprs(links: Seq<SymlinkNode>) -> Seq<LinkRepr> {
    links.map_values(|n: SymlinkNode| node_repr(n))
}

/// What one recorded hop renders to.
pub open spec fn node_repr(n: SymlinkNode) -> LinkRepr {
    LinkRepr {
        path: paths::cleaned_of(n.target@),
        link_type: type_label(n.link_type),
        wrapper_kind: wrapper_label(n.link_type),
        file_kind: file_label(n.link_type),
        is_final: n.is_final,
    }
}

/// Format a path for rendering: its lexical clean form.
pub fn format_path(path: &str) -> (r: String)
    ensures
        r@ == paths::cleaned_of(path@),
{
    paths::clean_path(path)
}

impl JsonLink {
    /// Render one hop.
    pub fn from_node(node: &SymlinkNode) -> (r: JsonLink)
        ensures
            link_view(r) == node_repr(*node),
    {
        let path = format_path(node.target.as_str());
        let (link_type, wrapper_kind, file_kind): (String, Option<String>, Option<String>) =
            match &node.link_type {
            LinkType::Symlink => (String::from_str("symlink"), None, None),
            LinkType::Wrapper(kind) => {
                let w: &'static str = match kind {
                    WrapperKind::Binary => "binary",
                    WrapperKind::Text(ScriptType::Shell) => "shell_script",
                    WrapperKind::Text(ScriptType::Python) => "python_script",
                    WrapperKind::Text(ScriptType::Perl) => "perl_script",
                    WrapperKind::Text(ScriptType::Unknown) => "unknown_script",
                };
                (String::from_str("wrapper"), Some(String::from_str(w)), None)
            },
            LinkType::Terminal(kind) => {
                let f: &'static str = match kind {
                    FileKind::Binary => "binary",
                    FileKind::Text => "text",
                };
                (String::from_str("terminal"), None, Some(String::from_str(f)))
            },
        };
        let r = JsonLink { path, link_type, wrapper_kind, file_kind, is_final: node.is_final };
        proof {
            assert(link_view(r) =~~= node_repr(*node));
        }
        r
    }
}

impl JsonChain {
    /// Render a whole chain: the cleaned origin and one rendered link per
    /// hop, in traversal order.
    pub fn from_chain(chain: &SymlinkChain) -> (r: JsonChain)
        ensures
            r.origin@ == paths::cleaned_of(chain.origin@),
            links_repr(r.links@) == chain_reprs(chain.links@),
    {
        let origin = format_path(chain.origin.as_str());
        let mut links: Vec<JsonLink> = Vec::new();
        let mut i: usize = 0;
        let n = chain.links.len();
        while i < n
            invariant
                n == chain.links@.len(),
                i <= n,
                links_repr(links@) =~~= chain_reprs(chain.links@.subrange(0, i as int)),
            decreases n - i,
        {
            let l = JsonLink::from_node(&chain.links[i]);
            let ghost lv = links@;
            let ghost lg = l;
            links.push(l);
            proof {
                let post = chain.links@.subrange(0, i as int + 1);
                assert(links_repr(lv).len() == lv.len());
                assert(chain_reprs(chain.links@.subrange(0, i as int)).len() == i);
                assert(lv.len() == i);
                assert(links@ == lv.push(lg));
                assert(links@.len() == i + 1);
                assert forall|k: int| 0 <= k < links@.len() implies links_repr(links@)[k]
                    == chain_reprs(post)[k] by {
                    assert(post[k] == chain.links@[k]);
                    if k < i as int {
                        assert(links@[k] == lv[k]);
                        assert(links_repr(lv)[k] == chain_reprs(
                            chain.links@.subrange(0, i as int),
                        )[k]);
                        assert(chain.links@.subrange(0, i as int)[k] == chain.links@[k]);
                    } else {
                        assert(links@[k] == lg);
                        assert(link_view(lg) == node_repr(chain.links@[i as int]));
                    }
                }
                assert(links_repr(links@) =~~= chain_reprs(post));
            }
            i = i + 1;
        }
        proof {
            assert(chain.links@.subrange(0, n as int) =~= chain.links@);
        }
        JsonChain { origin, links }
    }
}

// ---------------------------------------------------------------------
// The emitted text.
// ---------------------------------------------------------------------

/// One character as it stands inside a JSON string: quotes and backslashes
/// carry a backslash escape.
pub open spec fn esc1(c: char) -> Seq<char> {
    if c == '"' || c == '\\' {
        seq!['\\', c]
    } else {
        seq![c]
    }
}

/// A text as it stands inside a JSON string.
pub open spec fn esc(s: Seq<char>) -> Seq<char>
    decreases s.len(),
{
    if s.len() == 0 {
        Seq::empty()
    } else {
        esc1(s[0]) + esc(s.drop_first())
    }
}

/// A quoted JSON string.
pub open spec fn jstr(s: Seq<char>) -> Seq<char> {
    seq!['"'] + esc(s) + seq!['"']
}

/// The rendering of one link object, fields in fixed order, the optional
/// ones present exactly when they hold a value, `is_final` present exactly
/// when true.
pub open spec fn json_of_link(l: LinkRepr) -> Seq<char> {
    "{\"path\":"@ + jstr(l.path) + ",\"type\":"@ + jstr(l.link_type) + (match l.wrapper_kind {
        Some(w) => ",\"wrapper_kind\":"@ + jstr(w),
        None => Seq::empty(),
    }) + (match l.file_kind {
        Some(f) => ",\"file_kind\":"@ + jstr(f),
        None => Seq::empty(),
    }) + (if l.is_final {
        ",\"is_final\":true"@
    } else {
        Seq::empty()
    }) + "}"@
}

/// The comma-separated bodies of a link array.
pub open spec fn links_body(ls: Seq<LinkRepr>) -> Seq<char>
    decreases ls.len(),
{
    if ls.len() == 0 {
        Seq::empty()
    } else if ls.len() == 1 {
        json_of_link(ls[0])
    } else {
        json_of_link(ls[0]) + ","@ + links_body(ls.drop_first())
    }
}

/// The rendering of a whole chain object.
pub open spec fn json_of_chain(origin: Seq<char>, ls: Seq<LinkRepr>) -> Seq<char> {
    "{\"origin\":"@ + jstr(origin) + ",\"links\":["@ + links_body(ls) + "]}"@
}

/// Appending one link to an array extends its body at the end.
proof fn lemma_links_body_push(ls: Seq<LinkRepr>, x: LinkRepr)
    ensures
        links_body(ls.push(x)) == if ls.len() == 0 {
            json_of_link(x)
        } else {
            links_body(ls) + ","@ + links_body(seq![x])
        },
    decreases ls.len(),
{
    if ls.len() == 0 {
        assert(ls.push(x) =~= seq![x]);
    } else {
        lemma_links_body_push(ls.drop_first(), x);
        assert(ls.push(x).drop_first() =~= ls.drop_first().push(x));
        assert(ls.push(x)[0] == ls[0]);
        if ls.len() == 1 {
            assert(links_body(ls.push(x)) == json_of_link(ls[0]) + ","@ + links_body(
                ls.drop_first().push(x),
            ));
            assert(ls.drop_first().len() == 0);
        } else {
            assert(links_body(ls) + ","@ + links_body(seq![x]) =~= json_of_link(ls[0]) + ","@ + (
            links_body(ls.drop_first()) + ","@ + links_body(seq![x])));
        }
    }
}

fn push_lit(out: &mut Vec<char>, lit: &str)
    ensures
        final(out)@ == old(out)@ + lit@,
{
    let mut v = text::str_to_chars(lit);
    out.append(&mut v);
}

fn push_jstr(out: &mut Vec<char>, s: &str)
    ensures
        final(out)@ == old(out)@ + jstr(s@),
{
    let v = text::str_to_chars(s);
    let n = v.len();
    out.push('"');
    let ghost base = out@;
    let mut i: usize = 0;
    proof {
        assert(v@.skip(0) =~= v@);
        assert(base + esc(v@.skip(0)) == base + esc(v@));
    }
    while i < n
        invariant
            n == v@.len(),
            i <= n,
            out@ + esc(v@.skip(i as int)) == base + esc(v@),
        decreases n - i,
    {
        let c = v[i];
        let ghost prev = out@;
        proof {
            assert(v@.skip(i as int)[0] == v@[i as int]);
            assert(v@.skip(i as int).drop_first() =~= v@.skip(i as int + 1));
        }
        if c == '"' || c == '\\' {
            out.push('\\');
            out.push(c);
            proof {
                assert(out@ =~= prev + esc1(v@[i as int]));
            }
        } else {
            out.push(c);
            proof {
                assert(out@ =~= prev + esc1(v@[i as int]));
            }
        }
        proof {
            assert(out@ + esc(v@.skip(i as int + 1)) =~= prev + (esc1(v@[i as int]) + esc(
                v@.skip(i as int + 1),
            )));
        }
        i = i + 1;
    }
    proof {
        assert(v@.skip(n as int) =~= Seq::<char>::empty());
        assert(out@ =~= out@ + esc(v@.skip(n as int)));
    }
    out.push('"');
    proof {
        assert(out@ =~= old(out)@ + jstr(s@));
    }
}

fn push_opt_field(out: &mut Vec<char>, key: &str, value: &Option<String>)
    ensures
        final(out)@ == old(out)@ + (match value.deep_view() {
            Some(w) => key@ + jstr(w),
            None => Seq::<char>::empty(),
        }),
{
    match value {
        Some(w) => {
            push_lit(out, key);
            push_jstr(out, w.as_str());
            proof {
                assert(out@ =~= old(out)@ + (key@ + jstr(w@)));
            }
        },
        None => {
            proof {
                assert(out@ =~= old(out)@ + Seq::<char>::empty());
            }
        },
    }
}

fn push_link(out: &mut Vec<char>, l: &JsonLink)
    ensures
        final(out)@ == old(out)@ + json_of_link(link_view(*l)),
{
    push_lit(out, "{\"path\":");
    push_jstr(out, l.path.as_str());
    push_lit(out, ",\"type\":");
    push_jstr(out, l.link_type.as_str());
    push_opt_field(out, ",\"wrapper_kind\":", &l.wrapper_kind);
    push_opt_field(out, ",\"file_kind\":", &l.file_kind);
    if l.is_final {
        push_lit(out, ",\"is_final\":true");
    }
    push_lit(out, "}");
    proof {
        assert(out@ =~= old(out)@ + json_of_link(link_view(*l)));
    }
}

impl JsonChain {
    /// The JSON text of this chain.
    pub fn to_json_string(&self) -> (r: String)
        ensures
            r@ == json_of_chain(self.origin@, links_repr(self.links@)),
    {
        let mut out: Vec<char> = Vec::new();
        push_lit(&mut out, "{\"origin\":");
        push_jstr(&mut out, self.origin.as_str());
        push_lit(&mut out, ",\"links\":[");
        let ghost base = out@;
        let ghost reprs = links_repr(self.links@);
        let n = self.links.len();
        let mut i: usize = 0;
        proof {
            assert(links_body(reprs.subrange(0, 0)) =~= Seq::<char>::empty());
            assert(out@ =~= base + links_body(reprs.subrange(0, 0)));
        }
        while i < n
            invariant
                n == self.links@.len(),
                i <= n,
                reprs == links_repr(self.links@),
                reprs.len() == n,
                out@ == base + links_body(reprs.subrange(0, i as int)),
            decreases n - i,
        {
            let ghost prev = out@;
            if i > 0 {
                push_lit(&mut out, ",");
            }
            push_link(&mut out, &self.links[i]);
            proof {
                assert(link_view(self.links@[i as int]) == reprs[i as int]);
                assert(reprs.subrange(0, i as int).push(reprs[i as int]) =~= reprs.subrange(
                    0,
                    i as int + 1,
                ));
                lemma_links_body_push(reprs.subrange(0, i as int), reprs[i as int]);
                if i > 0 {
                    assert(out@ =~= prev + ","@ + json_of_link(reprs[i as int]));
                    assert(links_body(seq![reprs[i as int]]) == json_of_link(reprs[i as int]));
                    assert(out@ =~= base + links_body(reprs.subrange(0, i as int + 1)));
                } else {
                    assert(out@ =~= base + links_body(reprs.subrange(0, i as int + 1)));
                }
            }
            i = i + 1;
        }
        push_lit(&mut out, "]}");
        proof {
            assert(reprs.subrange(0, n as int) =~= reprs);
            assert(out@ =~= json_of_chain(self.origin@, links_repr(self.links@)));
        }
        text::chars_to_string(&out)
    }
}

// ---------------------------------------------------------------------
// The parser.
// ---------------------------------------------------------------------

/// The position after a fixed text at `pos`, or nothing when it does not
/// stand there.
pub open spec fn expect_lit(s: Seq<char>, pos: int, lit: Seq<char>) -> Option<int> {
    if 0 <= pos && pos + lit.len() <= s.len() && s.subrange(pos, pos + lit.len()) == lit {
        Some(pos + lit.len())
    } else {
        None
    }
}

/// The content of a JSON string whose opening quote has been consumed,
/// with the position after its closing quote.
pub open spec fn parse_str_body(s: Seq<char>, pos: int) -> Option<(Seq<char>, int)>
    decreases s.len() - pos,
{
    if pos < 0 || pos >= s.len() {
        None
    } else if s[pos] == '"' {
        Some((Seq::empty(), pos + 1))
    } else if s[pos] == '\\' {
        if pos + 1 < s.len() && (s[pos + 1] == '"' || s[pos + 1] == '\\') {
            match parse_str_body(s, pos + 2) {
                Some(r) => Some((seq![s[pos + 1]] + r.0, r.1)),
                None => None,
            }
        } else {
            None
        }
    } else {
        match parse_str_body(s, pos + 1) {
            Some(r) => Some((seq![s[pos]] + r.0, r.1)),
            None => None,
        }
    }
}

/// A quoted JSON string at `pos`.
pub open spec fn parse_jstr(s: Seq<char>, pos: int) -> Option<(Seq<char>, int)> {
    if 0 <= pos && pos < s.len() && s[pos] == '"' {
        parse_str_body(s, pos + 1)
    } else {
        None
    }
}

/// An optional keyed string field: absent when the key does not stand at
/// `pos`.
pub open spec fn parse_opt_field(s: Seq<char>, pos: int, key: Seq<char>) -> Option<
    (Option<Seq<char>>, int),
> {
    match expect_lit(s, pos, key) {
        Some(q) => match parse_jstr(s, q) {
            Some(r) => Some((Some(r.0), r.1)),
            None => None,
        },
        None => Some((None, pos)),
    }
}

/// One link object at `pos`.
pub open spec fn parse_link(s: Seq<char>, pos: int) -> Option<(LinkRepr, int)> {
    match expect_lit(s, pos, "{\"path\":"@) {
        None => None,
        Some(p1) => match parse_jstr(s, p1) {
            None => None,
            Some(path_r) => match expect_lit(s, path_r.1, ",\"type\":"@) {
                None => None,
                Some(p3) => match parse_jstr(s, p3) {
                    None => None,
                    Some(ty_r) => match parse_opt_field(s, ty_r.1, ",\"wrapper_kind\":"@) {
                        None => None,
                        Some(wk_r) => match parse_opt_field(s, wk_r.1, ",\"file_kind\":"@) {
                            None => None,
                            Some(fk_r) => {
                                let fin_r = match expect_lit(s, fk_r.1, ",\"is_final\":true"@) {
                                    Some(q) => (true, q),
                                    None => (false, fk_r.1),
                                };
                                match expect_lit(s, fin_r.1, "}"@) {
                                    Some(p7) => Some(
                                        (
                                            LinkRepr {
                                                path: path_r.0,
                                                link_type: ty_r.0,
                                                wrapper_kind: wk_r.0,
                                                file_kind: fk_r.0,
                                                is_final: fin_r.0,
                                            },
                                            p7,
                                        ),
                                    ),
                                    None => None,
                                }
                            },
                        },
                    },
                },
            },
        },
    }
}

/// One or more comma-separated link objects followed by the closing
/// bracket.
pub open spec fn parse_links_rest(s: Seq<char>, pos: int) -> Option<(Seq<LinkRepr>, int)>
    decreases s.len() - pos,
{
    match parse_link(s, pos) {
        None => None,
        Some(lr) => if !(pos < lr.1 && lr.1 <= s.len()) {
            None
        } else {
            match expect_lit(s, lr.1, ","@) {
                Some(q) => if !(lr.1 < q && q <= s.len()) {
                    None
                } else {
                    match parse_links_rest(s, q) {
                        Some(rest) => Some((seq![lr.0] + rest.0, rest.1)),
                        None => None,
                    }
                },
                None => match expect_lit(s, lr.1, "]"@) {
                    Some(r) => Some((seq![lr.0], r)),
                    None => None,
                },
            }
        },
    }
}

/// A link array at `pos`.
pub open spec fn parse_links(s: Seq<char>, pos: int) -> Option<(Seq<LinkRepr>, int)> {
    match expect_lit(s, pos, "["@) {
        None => None,
        Some(p1) => match expect_lit(s, p1, "]"@) {
            Some(p2) => Some((Seq::empty(), p2)),
            None => parse_links_rest(s, p1),
        },
    }
}

/// The text from `pos` on is exactly `suf`.
pub open spec fn tail_is(s: Seq<char>, pos: int, suf: Seq<char>) -> bool {
    0 <= pos <= s.len() && s.skip(pos) == suf
}

proof fn lemma_expect_lit_hit(s: Seq<char>, pos: int, lit: Seq<char>, rest: Seq<char>)
    requires
        tail_is(s, pos, lit + rest),
    ensures
        expect_lit(s, pos, lit) == Some(pos + lit.len()),
        tail_is(s, pos + lit.len(), rest),
{
    assert(s.skip(pos).len() == lit.len() + rest.len());
    assert(s.subrange(pos, pos + lit.len()) =~= lit) by {
        assert forall|k: int| 0 <= k < lit.len() implies s.subrange(pos, pos + lit.len())[k]
            == lit[k] by {
            assert(s.skip(pos)[k] == (lit + rest)[k]);
        }
    }
    assert(s.skip(pos + lit.len()) =~= rest) by {
        assert forall|k: int| 0 <= k < rest.len() implies s.skip(pos + lit.len())[k] == rest[k] by {
            assert(s.skip(pos)[k + lit.len()] == (lit + rest)[k + lit.len()]);
        }
    }
}

proof fn lemma_expect_lit_miss(s: Seq<char>, pos: int, lit: Seq<char>, suf: Seq<char>, k: int)
    requires
        tail_is(s, pos, suf),
        0 <= k < lit.len(),
        k >= suf.len() || suf[k] != lit[k],
    ensures
        expect_lit(s, pos, lit) is None,
{
    if expect_lit(s, pos, lit) is Some {
        assert(s.skip(pos).len() == suf.len());
        assert(k < suf.len());
        assert(s.subrange(pos, pos + lit.len())[k] == lit[k]);
        assert(s.skip(pos)[k] == suf[k]);
    }
}

proof fn lemma_parse_str_body_inverts(content: Seq<char>, s: Seq<char>, pos: int, rest: Seq<char>)
    requires
        tail_is(s, pos, esc(content) + seq!['"'] + rest),
    ensures
        parse_str_body(s, pos) == Some((content, pos + esc(content).len() + 1)),
        tail_is(s, pos + esc(content).len() + 1, rest),
    decreases content.len(),
{
    let suf = esc(content) + seq!['"'] + rest;
    assert(s.skip(pos).len() == suf.len());
    if content.len() == 0 {
        assert(esc(content) =~= Seq::<char>::empty());
        assert(s.skip(pos)[0] == suf[0]);
        assert(s[pos] == '"');
        assert(s.skip(pos + 1) =~= rest) by {
            assert forall|k: int| 0 <= k < rest.len() implies s.skip(pos + 1)[k] == rest[k] by {
                assert(s.skip(pos)[k + 1] == suf[k + 1]);
                assert(suf[k + 1] == rest[k]);
            }
        }
    } else {
        let c = content[0];
        let tail2 = esc(content.drop_first()) + seq!['"'] + rest;
        assert(esc(content) == esc1(c) + esc(content.drop_first()));
        if c == '"' || c == '\\' {
            assert(suf[0] == '\\' && suf[1] == c) by {
                assert(suf[0] == (esc1(c) + esc(content.drop_first()) + seq!['"'] + rest)[0]);
            }
            assert(s.skip(pos)[0] == suf[0]);
            assert(s.skip(pos)[1] == suf[1]);
            assert(s[pos] == '\\' && s[pos + 1] == c);
            assert(tail_is(s, pos + 2, tail2)) by {
                assert(s.skip(pos + 2) =~= tail2) by {
                    assert forall|k: int| 0 <= k < tail2.len() implies s.skip(pos + 2)[k]
                        == tail2[k] by {
                        assert(s.skip(pos)[k + 2] == suf[k + 2]);
                        assert(suf[k + 2] == tail2[k]);
                    }
                }
            }
            lemma_parse_str_body_inverts(content.drop_first(), s, pos + 2, rest);
            assert(seq![c] + content.drop_first() =~= content);
        } else {
            assert(s.skip(pos)[0] == suf[0]);
            assert(suf[0] == c);
            assert(s[pos] == c);
            assert(tail_is(s, pos + 1, tail2)) by {
                assert(s.skip(pos + 1) =~= tail2) by {
                    assert forall|k: int| 0 <= k < tail2.len() implies s.skip(pos + 1)[k]
                        == tail2[k] by {
                        assert(s.skip(pos)[k + 1] == suf[k + 1]);
                        assert(suf[k + 1] == tail2[k]);
                    }
                }
            }
            lemma_parse_str_body_inverts(content.drop_first(), s, pos + 1, rest);
            assert(seq![c] + content.drop_first() =~= content);
        }
    }
}

proof fn lemma_parse_jstr_inverts(content: Seq<char>, s: Seq<char>, pos: int, rest: Seq<char>)
    requires
        tail_is(s, pos, jstr(content) + rest),
    ensures
        parse_jstr(s, pos) == Some((content, pos + jstr(content).len())),
        tail_is(s, pos + jstr(content).len(), rest),
{
    let suf = jstr(content) + rest;
    assert(s.skip(pos).len() == suf.len());
    assert(suf[0] == '"');
    assert(s.skip(pos)[0] == suf[0]);
    assert(s[pos] == '"');
    let tail2 = esc(content) + seq!['"'] + rest;
    assert(tail_is(s, pos + 1, tail2)) by {
        assert(s.skip(pos + 1) =~= tail2) by {
            assert forall|k: int| 0 <= k < tail2.len() implies s.skip(pos + 1)[k] == tail2[k] by {
                assert(s.skip(pos)[k + 1] == suf[k + 1]);
                assert(suf[k + 1] == tail2[k]);
            }
        }
    }
    lemma_parse_str_body_inverts(content, s, pos + 1, rest);
}

#[verifier::spinoff_prover]
#[verifier::rlimit(100)]
proof fn lemma_parse_link_inverts(l: LinkRepr, s: Seq<char>, pos: int, rest: Seq<char>)
    requires
        tail_is(s, pos, json_of_link(l) + rest),
    ensures
        parse_link(s, pos) == Some((l, pos + json_of_link(l).len())),
        tail_is(s, pos + json_of_link(l).len(), rest),
        json_of_link(l).len() > 0,
{
    reveal_strlit("{\"path\":");
    reveal_strlit(",\"type\":");
    reveal_strlit(",\"wrapper_kind\":");
    reveal_strlit(",\"file_kind\":");
    reveal_strlit(",\"is_final\":true");
    reveal_strlit("}");
    let wk_part: Seq<char> = match l.wrapper_kind {
        Some(w) => ",\"wrapper_kind\":"@ + jstr(w),
        None => Seq::empty(),
    };
    let fk_part: Seq<char> = match l.file_kind {
        Some(f) => ",\"file_kind\":"@ + jstr(f),
        None => Seq::empty(),
    };
    let fin_part: Seq<char> = if l.is_final {
        ",\"is_final\":true"@
    } else {
        Seq::empty()
    };
    let after_ty = wk_part + (fk_part + (fin_part + ("}"@ + rest)));
    assert(json_of_link(l) + rest =~= "{\"path\":"@ + (jstr(l.path) + (",\"type\":"@ + (jstr(
        l.link_type,
    ) + after_ty))));
    lemma_expect_lit_hit(s, pos, "{\"path\":"@, jstr(l.path) + (",\"type\":"@ + (jstr(l.link_type)
        + after_ty)));
    let p1 = pos + "{\"path\":"@.len();
    lemma_parse_jstr_inverts(l.path, s, p1, ",\"type\":"@ + (jstr(l.link_type) + after_ty));
    let p2 = p1 + jstr(l.path).len();
    lemma_expect_lit_hit(s, p2, ",\"type\":"@, jstr(l.link_type) + after_ty);
    let p3 = p2 + ",\"type\":"@.len();
    lemma_parse_jstr_inverts(l.link_type, s, p3, after_ty);
    let p4 = p3 + jstr(l.link_type).len();
    // the optional wrapper_kind field
    let after_wk = fk_part + (fin_part + ("}"@ + rest));
    let p5: int;
    match l.wrapper_kind {
        Some(w) => {
            assert(after_ty =~= ",\"wrapper_kind\":"@ + (jstr(w) + after_wk));
            lemma_expect_lit_hit(s, p4, ",\"wrapper_kind\":"@, jstr(w) + after_wk);
            lemma_parse_jstr_inverts(w, s, p4 + ",\"wrapper_kind\":"@.len(), after_wk);
            p5 = p4 + ",\"wrapper_kind\":"@.len() + jstr(w).len();
        },
        None => {
            assert(after_ty == after_wk);
            let key = ",\"wrapper_kind\":"@;
            match l.file_kind {
                Some(f) => {
                    assert(after_wk =~= ",\"file_kind\":"@ + (jstr(f) + (fin_part + ("}"@
                        + rest))));
                    assert(after_wk[2] == 'f' && key[2] == 'w');
                    lemma_expect_lit_miss(s, p4, key, after_wk, 2);
                },
                None => {
                    if l.is_final {
                        assert(after_wk =~= ",\"is_final\":true"@ + ("}"@ + rest));
                        assert(after_wk[2] == 'i' && key[2] == 'w');
                        lemma_expect_lit_miss(s, p4, key, after_wk, 2);
                    } else {
                        assert(after_wk =~= "}"@ + rest);
                        assert(after_wk[0] == '}' && key[0] == ',');
                        lemma_expect_lit_miss(s, p4, key, after_wk, 0);
                    }
                },
            }
            p5 = p4;
        },
    }
    assert(parse_opt_field(s, p4, ",\"wrapper_kind\":"@) == Some((l.wrapper_kind, p5)));
    assert(tail_is(s, p5, after_wk));
    // the optional file_kind field
    let after_fk = fin_part + ("}"@ + rest);
    let p6: int;
    match l.file_kind {
        Some(f) => {
            assert(after_wk =~= ",\"file_kind\":"@ + (jstr(f) + after_fk));
            lemma_expect_lit_hit(s, p5, ",\"file_kind\":"@, jstr(f) + after_fk);
            lemma_parse_jstr_inverts(f, s, p5 + ",\"file_kind\":"@.len(), after_fk);
            p6 = p5 + ",\"file_kind\":"@.len() + jstr(f).len();
        },
        None => {
            assert(after_wk == after_fk);
            let key = ",\"file_kind\":"@;
            if l.is_final {
                assert(after_fk =~= ",\"is_final\":true"@ + ("}"@ + rest));
                assert(after_fk[2] == 'i' && key[2] == 'f');
                lemma_expect_lit_miss(s, p5, key, after_fk, 2);
            } else {
                assert(after_fk =~= "}"@ + rest);
                assert(after_fk[0] == '}' && key[0] == ',');
                lemma_expect_lit_miss(s, p5, key, after_fk, 0);
            }
            p6 = p5;
        },
    }
    assert(parse_opt_field(s, p5, ",\"file_kind\":"@) == Some((l.file_kind, p6)));
    assert(tail_is(s, p6, after_fk));
    // the optional is_final flag
    let p7: int;
    if l.is_final {
        assert(after_fk =~= ",\"is_final\":true"@ + ("}"@ + rest));
        lemma_expect_lit_hit(s, p6, ",\"is_final\":true"@, "}"@ + rest);
        p7 = p6 + ",\"is_final\":true"@.len();
    } else {
        assert(after_fk =~= "}"@ + rest);
        assert(after_fk[0] == '}');
        lemma_expect_lit_miss(s, p6, ",\"is_final\":true"@, after_fk, 0);
        p7 = p6;
    }
    assert(tail_is(s, p7, "}"@ + rest));
    lemma_expect_lit_hit(s, p7, "}"@, rest);
    assert(parse_link(s, pos) == Some((l, p7 + 1)));
    assert(p7 + 1 == pos + json_of_link(l).len());
}

proof fn lemma_parse_links_rest_inverts(
    ls: Seq<LinkRepr>,
    s: Seq<char>,
    pos: int,
    rest: Seq<char>,
)
    requires
        ls.len() >= 1,
        tail_is(s, pos, links_body(ls) + ("]"@ + rest)),
    ensures
        parse_links_rest(s, pos) == Some((ls, pos + links_body(ls).len() + 1)),
        tail_is(s, pos + links_body(ls).len() + 1, rest),
    decreases ls.len(),
{
    reveal_strlit("]");
    reveal_strlit(",");
    if ls.len() == 1 {
        assert(links_body(ls) == json_of_link(ls[0]));
        lemma_parse_link_inverts(ls[0], s, pos, "]"@ + rest);
        let p = pos + json_of_link(ls[0]).len();
        assert(("]"@ + rest)[0] == ']' && ","@[0] == ',');
        lemma_expect_lit_miss(s, p, ","@, "]"@ + rest, 0);
        lemma_expect_lit_hit(s, p, "]"@, rest);
        assert(seq![ls[0]] =~= ls);
    } else {
        assert(links_body(ls) == json_of_link(ls[0]) + ","@ + links_body(ls.drop_first()));
        assert(links_body(ls) + ("]"@ + rest) =~= json_of_link(ls[0]) + (","@ + (links_body(
            ls.drop_first(),
        ) + ("]"@ + rest))));
        lemma_parse_link_inverts(ls[0], s, pos, ","@ + (links_body(ls.drop_first()) + ("]"@
            + rest)));
        let p = pos + json_of_link(ls[0]).len();
        lemma_expect_lit_hit(s, p, ","@, links_body(ls.drop_first()) + ("]"@ + rest));
        lemma_parse_links_rest_inverts(ls.drop_first(), s, p + 1, rest);
        assert(seq![ls[0]] + ls.drop_first() =~= ls);
    }
}

proof fn lemma_parse_links_inverts(ls: Seq<LinkRepr>, s: Seq<char>, pos: int, rest: Seq<char>)
    requires
        tail_is(s, pos, "["@ + (links_body(ls) + ("]"@ + rest))),
    ensures
        parse_links(s, pos) == Some((ls, pos + 1 + links_body(ls).len() + 1)),
        tail_is(s, pos + 1 + links_body(ls).len() + 1, rest),
{
    reveal_strlit("[");
    reveal_strlit("]");
    reveal_strlit("{\"path\":");
    lemma_expect_lit_hit(s, pos, "["@, links_body(ls) + ("]"@ + rest));
    let p1 = pos + 1;
    if ls.len() == 0 {
        assert(links_body(ls) =~= Seq::<char>::empty());
        assert(links_body(ls) + ("]"@ + rest) =~= "]"@ + rest);
        lemma_expect_lit_hit(s, p1, "]"@, rest);
        assert(parse_links(s, pos) == Some((Seq::<LinkRepr>::empty(), p1 + 1)));
        assert(ls =~= Seq::<LinkRepr>::empty());
    } else {
        let suf = links_body(ls) + ("]"@ + rest);
        assert(links_body(ls)[0] == '{') by {
            if ls.len() == 1 {
                assert(links_body(ls) == json_of_link(ls[0]));
            }
            assert(json_of_link(ls[0])[0] == "{\"path\":"@[0]);
        }
        assert(suf[0] == '{' && "]"@[0] == ']');
        lemma_expect_lit_miss(s, p1, "]"@, suf, 0);
        lemma_parse_links_rest_inverts(ls, s, p1, rest);
    }
}

/// Parsing an emitted chain recovers it whole: the origin and the ordered
/// links, each with its path, type, kinds and final flag. This is the
/// round-trip law of the JSON rendering.
pub proof fn lemma_json_round_trip(origin: Seq<char>, ls: Seq<LinkRepr>)
    ensures
        parse_chain_spec(json_of_chain(origin, ls)) == Some((origin, ls)),
{
    reveal_strlit("{\"origin\":");
    reveal_strlit(",\"links\":[");
    reveal_strlit(",\"links\":");
    reveal_strlit("[");
    reveal_strlit("]");
    reveal_strlit("}");
    reveal_strlit("]}");
    let s = json_of_chain(origin, ls);
    assert(",\"links\":["@ =~= ",\"links\":"@ + "["@);
    assert("]}"@ =~= "]"@ + "}"@);
    assert(s =~= "{\"origin\":"@ + (jstr(origin) + (",\"links\":"@ + ("["@ + (links_body(ls) + (
    "]"@ + ("}"@ + Seq::<char>::empty())))))));
    assert(tail_is(s, 0, s)) by {
        assert(s.skip(0) =~= s);
    }
    lemma_expect_lit_hit(s, 0, "{\"origin\":"@, jstr(origin) + (",\"links\":"@ + ("["@ + (
    links_body(ls) + ("]"@ + ("}"@ + Seq::<char>::empty()))))));
    let p1 = "{\"origin\":"@.len() as int;
    lemma_parse_jstr_inverts(origin, s, p1, ",\"links\":"@ + ("["@ + (links_body(ls) + ("]"@ + (
    "}"@ + Seq::<char>::empty())))));
    let p2 = p1 + jstr(origin).len();
    lemma_expect_lit_hit(s, p2, ",\"links\":"@, "["@ + (links_body(ls) + ("]"@ + ("}"@
        + Seq::<char>::empty()))));
    let p3 = p2 + ",\"links\":"@.len();
    lemma_parse_links_inverts(ls, s, p3, "}"@ + Seq::<char>::empty());
    let p4 = p3 + 1 + links_body(ls).len() + 1;
    lemma_expect_lit_hit(s, p4, "}"@, Seq::<char>::empty());
    assert(s.skip(p4 + 1) =~= Seq::<char>::empty());
    assert(p4 + 1 == s.len());
}

/// A whole chain object spanning the entire text.
pub open spec fn parse_chain_spec(s: Seq<char>) -> Option<(Seq<char>, Seq<LinkRepr>)> {
    match expect_lit(s, 0, "{\"origin\":"@) {
        None => None,
        Some(p1) => match parse_jstr(s, p1) {
            None => None,
            Some(og) => match expect_lit(s, og.1, ",\"links\":"@) {
                None => None,
                Some(p2) => match parse_links(s, p2) {
                    None => None,
                    Some(ls) => match expect_lit(s, ls.1, "}"@) {
                        Some(p3) => if p3 == s.len() {
                            Some((og.0, ls.0))
                        } else {
                            None
                        },
                        None => None,
                    },
                },
            },
        },
    }
}

fn expect_lit_exec(v: &Vec<char>, pos: usize, lit: &str) -> (r: Option<usize>)
    ensures
        match r {
            Some(q) => expect_lit(v@, pos as int, lit@) == Some(q as int) && pos <= q <= v@.len(),
            None => expect_lit(v@, pos as int, lit@) is None,
        },
{
    let lchars = text::str_to_chars(lit);
    if pos > v.len() || lchars.len() > v.len() - pos {
        return None;
    }
    if text::matches_at_exec(v, &lchars, pos) {
        Some(pos + lchars.len())
    } else {
        None
    }
}

fn parse_str_body_exec(v: &Vec<char>, pos: usize) -> (r: Option<(Vec<char>, usize)>)
    ensures
        match r {
            Some(t) => parse_str_body(v@, pos as int) == Some((t.0@, t.1 as int)) && t.1
                <= v@.len(),
            None => parse_str_body(v@, pos as int) is None,
        },
    decreases v@.len() - pos,
{
    if pos >= v.len() {
        return None;
    }
    let c = v[pos];
    if c == '"' {
        return Some((Vec::new(), pos + 1));
    }
    if c == '\\' {
        if pos + 1 < v.len() && (v[pos + 1] == '"' || v[pos + 1] == '\\') {
            match parse_str_body_exec(v, pos + 2) {
                Some((mut t, q)) => {
                    t.insert(0, v[pos + 1]);
                    proof {
                        assert(t@ =~= seq![v@[pos as int + 1]] + t@.subrange(1, t@.len() as int));
                    }
                    Some((t, q))
                },
                None => None,
            }
        } else {
            None
        }
    } else {
        match parse_str_body_exec(v, pos + 1) {
            Some((mut t, q)) => {
                t.insert(0, c);
                proof {
                    assert(t@ =~= seq![v@[pos as int]] + t@.subrange(1, t@.len() as int));
                }
                Some((t, q))
            },
            None => None,
        }
    }
}

fn parse_jstr_exec(v: &Vec<char>, pos: usize) -> (r: Option<(String, usize)>)
    ensures
        match r {
            Some(t) => parse_jstr(v@, pos as int) == Some((t.0@, t.1 as int)) && t.1 <= v@.len(),
            None => parse_jstr(v@, pos as int) is None,
        },
{
    if pos < v.len() && v[pos] == '"' {
        match parse_str_body_exec(v, pos + 1) {
            Some((t, q)) => Some((text::chars_to_string(&t), q)),
            None => None,
        }
    } else {
        None
    }
}

fn parse_opt_field_exec(v: &Vec<char>, pos: usize, key: &str) -> (r: Option<
    (Option<String>, usize),
>)
    requires
        pos <= v@.len(),
    ensures
        match r {
            Some(t) => parse_opt_field(v@, pos as int, key@) == Some(
                (t.0.deep_view(), t.1 as int),
            ) && t.1 <= v@.len(),
            None => parse_opt_field(v@, pos as int, key@) is None,
        },
{
    match expect_lit_exec(v, pos, key) {
        Some(q) => match parse_jstr_exec(v, q) {
            Some((w, p)) => Some((Some(w), p)),
            None => None,
        },
        None => Some((None, pos)),
    }
}

fn parse_link_exec(v: &Vec<char>, pos: usize) -> (r: Option<(JsonLink, usize)>)
    ensures
        match r {
            Some(t) => parse_link(v@, pos as int) == Some((link_view(t.0), t.1 as int)) && t.1
                <= v@.len(),
            None => parse_link(v@, pos as int) is None,
        },
{
    let p1 = match expect_lit_exec(v, pos, "{\"path\":") {
        Some(p) => p,
        None => {
            return None;
        },
    };
    let (path, p2) = match parse_jstr_exec(v, p1) {
        Some(t) => t,
        None => {
            return None;
        },
    };
    let p3 = match expect_lit_exec(v, p2, ",\"type\":") {
        Some(p) => p,
        None => {
            return None;
        },
    };
    let (link_type, p4) = match parse_jstr_exec(v, p3) {
        Some(t) => t,
        None => {
            return None;
        },
    };
    let (wrapper_kind, p5) = match parse_opt_field_exec(v, p4, ",\"wrapper_kind\":") {
        Some(t) => t,
        None => {
            return None;
        },
    };
    let (file_kind, p6) = match parse_opt_field_exec(v, p5, ",\"file_kind\":") {
        Some(t) => t,
        None => {
            return None;
        },
    };
    let (is_final, p7) = match expect_lit_exec(v, p6, ",\"is_final\":true") {
        Some(q) => (true, q),
        None => (false, p6),
    };
    match expect_lit_exec(v, p7, "}") {
        Some(p8) => Some((JsonLink { path, link_type, wrapper_kind, file_kind, is_final }, p8)),
        None => None,
    }
}

fn parse_links_rest_exec(v: &Vec<char>, pos: usize) -> (r: Option<(Vec<JsonLink>, usize)>)
    ensures
        match r {
            Some(t) => parse_links_rest(v@, pos as int) == Some((links_repr(t.0@), t.1 as int))
                && t.1 <= v@.len(),
            None => parse_links_rest(v@, pos as int) is None,
        },
    decreases v@.len() - pos,
{
    let (l, p) = match parse_link_exec(v, pos) {
        Some(t) => t,
        None => {
            return None;
        },
    };
    if !(pos < p) {
        return None;
    }
    match expect_lit_exec(v, p, ",") {
        Some(q) => {
            if !(p < q) {
                return None;
            }
            match parse_links_rest_exec(v, q) {
                Some((mut ls, e)) => {
                    let ghost lsv = ls@;
                    ls.insert(0, l);
                    proof {
                        assert forall|k: int|
                            0 <= k < links_repr(ls@).len() implies links_repr(ls@)[k] == (seq![
                            link_view(l),
                        ] + links_repr(lsv))[k] by {
                            if k == 0 {
                                assert(ls@[0] == l);
                            } else {
                                assert(ls@[k] == lsv[k - 1]);
                            }
                        }
                        assert(links_repr(ls@) =~= seq![link_view(l)] + links_repr(lsv));
                    }
                    Some((ls, e))
                },
                None => None,
            }
        },
        None => match expect_lit_exec(v, p, "]") {
            Some(e) => {
                let mut ls: Vec<JsonLink> = Vec::new();
                ls.push(l);
                proof {
                    assert(links_repr(ls@) =~= seq![link_view(l)]);
                }
                Some((ls, e))
            },
            None => None,
        },
    }
}

fn parse_links_exec(v: &Vec<char>, pos: usize) -> (r: Option<(Vec<JsonLink>, usize)>)
    ensures
        match r {
            Some(t) => parse_links(v@, pos as int) == Some((links_repr(t.0@), t.1 as int)) && t.1
                <= v@.len(),
            None => parse_links(v@, pos as int) is None,
        },
{
    let p1 = match expect_lit_exec(v, pos, "[") {
        Some(p) => p,
        None => {
            return None;
        },
    };
    match expect_lit_exec(v, p1, "]") {
        Some(p2) => {
            let ls: Vec<JsonLink> = Vec::new();
            proof {
                assert(links_repr(ls@) =~= Seq::<LinkRepr>::empty());
            }
            Some((ls, p2))
        },
        None => parse_links_rest_exec(v, p1),
    }
}

impl JsonChain {
    /// Parse a chain from its JSON text. Exactly the texts of the
    /// documented shape are accepted, and an emitted chain parses back to
    /// itself.
    pub fn from_json_str(s: &str) -> (r: Option<JsonChain>)
        ensures
            match r {
                Some(c) => parse_chain_spec(s@) == Some((c.origin@, links_repr(c.links@))),
                None => parse_chain_spec(s@) is None,
            },
    {
        let v = text::str_to_chars(s);
        let p1 = match expect_lit_exec(&v, 0, "{\"origin\":") {
            Some(p) => p,
            None => {
                return None;
            },
        };
        let (origin, p2) = match parse_jstr_exec(&v, p1) {
            Some(t) => t,
            None => {
                return None;
            },
        };
        let p3 = match expect_lit_exec(&v, p2, ",\"links\":") {
            Some(p) => p,
            None => {
                return None;
            },
        };
        let (links, p4) = match parse_links_exec(&v, p3) {
            Some(t) => t,
            None => {
                return None;
            },
        };
        match expect_lit_exec(&v, p4, "}") {
            Some(p5) => {
                if p5 == v.len() {
                    Some(JsonChain { origin, links })
                } else {
                    None
                }
            },
            None => None,
        }
    }
}

} // verus!
