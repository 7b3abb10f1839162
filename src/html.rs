//! Text extraction from an HTML document tree, and the HTML path of the
//! normaliser.

use vstd::prelude::*;
use crate::chars::{chars_of, push_char, trim, trimmed};
use crate::normalize::{clean_spec, clean_text};
use crate::tokens::texts;
use html5ever::tendril::TendrilSink;
use markup5ever_rcdom::{Handle, NodeData, RcDom};

verus! {

/// What a node of an HTML document holds, apart from its children.
pub enum HtmlKind {
    Document,
    Text(String),
    Comment(String),
    Element(String),
    Instruction,
    Other,
}

/// A node of an HTML document held in an arena: its children are indices of
/// other nodes of the same arena, in document order.
pub struct HtmlNode {
    pub kind: HtmlKind,
    pub children: Vec<usize>,
}

/// The arena of nodes that html5ever builds from `s`; the document is node 0.
pub uninterp spec fn html_tree_of(s: Seq<char>) -> Seq<HtmlNode>;

/// A non-empty arena in which each child index lies after its parent's index
/// and inside the arena.
pub open spec fn arena_ok(a: Seq<HtmlNode>) -> bool {
    a.len() > 0 && forall|i: int, k: int|
        0 <= i < a.len() && 0 <= k < a[i].children@.len() ==> i < #[trigger] a[i].children@[k]
            < a.len()
}

/// What `Regex::new(pattern)` then `replace_all(s, rep)` give: `None` where
/// the pattern does not compile.
pub uninterp spec fn replace_all_of(pattern: Seq<char>, s: Seq<char>, rep: Seq<char>) -> Option<
    Seq<char>,
>;

/// Longest text, in characters, handed to the HTML parser: its input buffer
/// holds at most `u32::MAX` bytes, and a character takes at most four.
pub const MAX_HTML_CHARS: usize = 0x3FFF_FFFF;

/// Brace blocks, `<code>` spans and `?php` markers: code that survived the
/// structural extraction.
pub const CODE_PATTERN: &'static str = r"(\{(.|\n|\r\r)*\})|(<code>(.|\n|\r\r)*</code>)|(\?php(.|\n)?)";

/// What each match of `CODE_PATTERN` is replaced with.
pub const CODE_MARKER: &'static str = "Section contained code.";

/// A node of html5ever's reference-counted document tree.
#[verifier::external_type_specification]
#[verifier::external_body]
pub struct ExRcNode(markup5ever_rcdom::Node);

/// Relies on markup5ever_rcdom's `NodeData`: what one node holds, converted
/// variant for variant.
#[verifier::external_body]
fn node_kind(h: &Handle) -> HtmlKind {
    match &h.data {
        NodeData::Document => HtmlKind::Document,
        NodeData::Text { contents } => HtmlKind::Text(contents.borrow().to_string()),
        NodeData::Comment { contents } => HtmlKind::Comment(contents.to_string()),
        NodeData::Element { name, .. } => HtmlKind::Element(name.local.to_string()),
        NodeData::ProcessingInstruction { .. } => HtmlKind::Instruction,
        NodeData::Doctype { .. } => HtmlKind::Other,
    }
}

/// Relies on `html5ever::parse_document` with an `RcDom` sink: parses `s` as an
/// HTML document, with its error recovery. The whole input becomes one
/// tendril, which holds at most `u32::MAX` bytes. The tree is copied node for
/// node into an arena, with an explicit stack: each node's children are
/// appended after it, in order, and listed by index.
#[verifier::external_body]
pub(crate) fn parse_html_tree(s: &str) -> (r: Vec<HtmlNode>)
    requires
        s@.len() <= MAX_HTML_CHARS,
    ensures
        r@ == html_tree_of(s@),
        arena_ok(r@),
{
    let dom: RcDom = html5ever::parse_document(RcDom::default(), Default::default()).one(s);
    let mut nodes = vec![HtmlNode { kind: node_kind(&dom.document), children: Vec::new() }];
    let mut stack = vec![(dom.document.clone(), 0usize)];
    while let Some((h, i)) = stack.pop() {
        for c in h.children.borrow().iter() {
            let j: usize = nodes.len();
            nodes[i].children.push(j);
            nodes.push(HtmlNode { kind: node_kind(c), children: Vec::new() });
            stack.push((c.clone(), j));
        }
    }
    nodes
}

/// Relies on `regex::Regex::new` and `Regex::replace_all`: every
/// non-overlapping match of `pattern` in `s` replaced by `rep`.
#[verifier::external_body]
fn regex_replace_all(pattern: &str, s: &str, rep: &str) -> (r: Option<String>)
    ensures
        match r {
            None => replace_all_of(pattern@, s@, rep@) is None,
            Some(x) => replace_all_of(pattern@, s@, rep@) == Some(x@),
        },
{
    regex::Regex::new(pattern).ok().map(|re| re.replace_all(s, rep).to_string())
}

/// `s` with the code that `CODE_PATTERN` finds replaced by `CODE_MARKER`; `s`
/// itself where the pattern does not compile.
pub open spec fn code_masked(s: Seq<char>) -> Seq<char> {
    match replace_all_of(CODE_PATTERN@, s, CODE_MARKER@) {
        Some(m) => m,
        None => s,
    }
}

/// Replaces leftover code in `s` by the marker `Section contained code.`.
pub fn mask_code(s: &str) -> (r: String)
    ensures
        r@ == code_masked(s@),
{
    match regex_replace_all(CODE_PATTERN, s, CODE_MARKER) {
        Some(m) => m,
        None => String::from_str(s),
    }
}

/// Non-printable characters: the control characters.
pub open spec fn is_control(c: char) -> bool {
    let u = c as u32;
    u <= 0x1F || (0x7F <= u && u <= 0x9F)
}

pub open spec fn hex_digits() -> Seq<char> {
    seq!['0', '1', '2', '3', '4', '5', '6', '7', '8', '9', 'a', 'b', 'c', 'd', 'e', 'f']
}

/// Lower-case hexadecimal digits of `u < 256`, without leading zeros.
pub open spec fn hex_of(u: u32) -> Seq<char> {
    if u < 16 {
        seq![hex_digits()[u as int]]
    } else {
        seq![hex_digits()[(u / 16) as int], hex_digits()[(u % 16) as int]]
    }
}

/// The literal-safe form of one character: tab, carriage return and newline
/// as `\t`, `\r`, `\n`; another control character as `\u{..}`; any other
/// character as it is.
pub open spec fn escape_char(c: char) -> Seq<char> {
    if c == '\t' {
        seq!['\\', 't']
    } else if c == '\r' {
        seq!['\\', 'r']
    } else if c == '\n' {
        seq!['\\', 'n']
    } else if is_control(c) {
        seq!['\\', 'u', '{'] + hex_of(c as u32) + seq!['}']
    } else {
        seq![c]
    }
}

/// `s` with each non-printable character escaped.
pub open spec fn escape(s: Seq<char>) -> Seq<char>
    decreases s.len(),
{
    if s.len() == 0 {
        seq![]
    } else {
        escape(s.drop_last()) + escape_char(s.last())
    }
}

fn push_hex_digit(r: &mut String, d: u32)
    requires
        d < 16,
    ensures
        final(r)@ == old(r)@.push(hex_digits()[d as int]),
{
    let digits: [char; 16] = [
        '0', '1', '2', '3', '4', '5', '6', '7', '8', '9', 'a', 'b', 'c', 'd', 'e', 'f',
    ];
    assert(digits@ =~= hex_digits());
    push_char(r, digits[d as usize]);
}

fn push_escaped(r: &mut String, c: char)
    ensures
        final(r)@ == old(r)@ + escape_char(c),
{
    let u = c as u32;
    if c == '\t' || c == '\r' || c == '\n' {
        push_char(r, '\\');
        push_char(r, if c == '\t' { 't' } else if c == '\r' { 'r' } else { 'n' });
    } else if u <= 0x1F || (0x7F <= u && u <= 0x9F) {
        push_char(r, '\\');
        push_char(r, 'u');
        push_char(r, '{');
        if u < 16 {
            push_hex_digit(r, u);
        } else {
            push_hex_digit(r, u / 16);
            push_hex_digit(r, u % 16);
        }
        push_char(r, '}');
    } else {
        push_char(r, c);
    }
    assert(r@ =~= old(r)@ + escape_char(c));
}

/// `s` with each non-printable character written as an escape sequence.
pub fn escape_text(s: &str) -> (r: String)
    ensures
        r@ == escape(s@),
{
    let cs = chars_of(s);
    let mut r = String::new();
    let mut i: usize = 0;
    assert(cs@.subrange(0, 0) =~= seq![]);
    while i < cs.len()
        invariant
            i <= cs@.len(),
            r@ == escape(cs@.subrange(0, i as int)),
        decreases cs@.len() - i,
    {
        assert(cs@.subrange(0, i + 1).drop_last() =~= cs@.subrange(0, i as int));
        push_escaped(&mut r, cs[i]);
        i += 1;
    }
    assert(cs@.subrange(0, cs@.len() as int) =~= s@);
    r
}

/// Elements whose content is code and is dropped.
pub open spec fn is_code_element(name: Seq<char>) -> bool {
    name == seq!['p', 'r', 'e'] || name == seq!['c', 'o', 'd', 'e']
}

/// The fragment that text `t` gives: trimmed and escaped, if anything is left.
pub open spec fn text_fragment(t: Seq<char>) -> Seq<Seq<char>> {
    let e = escape(trim(t));
    if e.len() > 0 {
        seq![e]
    } else {
        seq![]
    }
}

/// The fragments that a node gives itself.
pub open spec fn own_fragments(k: HtmlKind) -> Seq<Seq<char>> {
    match k {
        HtmlKind::Text(t) => text_fragment(t@),
        HtmlKind::Comment(t) => text_fragment(t@),
        _ => seq![],
    }
}

/// Whether the traversal goes on into a node's children.
pub open spec fn descends(k: HtmlKind) -> bool {
    match k {
        HtmlKind::Element(name) => !is_code_element(name@),
        _ => true,
    }
}

/// The visible text fragments of the subtree at node `i` of arena `a`, in
/// document order.
pub open spec fn fragments(a: Seq<HtmlNode>, i: int) -> Seq<Seq<char>>
    decreases a.len() - i, a[i].children@.len() + 1,
{
    if 0 <= i < a.len() && descends(a[i].kind) {
        own_fragments(a[i].kind) + child_fragments(a, i, a[i].children@.len())
    } else {
        seq![]
    }
}

/// The fragments of the first `k` children of node `i`; a child index that
/// does not lie after `i` inside the arena gives nothing.
pub open spec fn child_fragments(a: Seq<HtmlNode>, i: int, k: nat) -> Seq<Seq<char>>
    decreases a.len() - i, k,
{
    if 0 <= i < a.len() && 0 < k <= a[i].children@.len() {
        let c = a[i].children@[k - 1] as int;
        child_fragments(a, i, (k - 1) as nat) + if i < c < a.len() {
            fragments(a, c)
        } else {
            seq![]
        }
    } else {
        seq![]
    }
}

/// `frags` joined by ` . `.
pub open spec fn join(frags: Seq<Seq<char>>) -> Seq<char>
    decreases frags.len(),
{
    if frags.len() == 0 {
        seq![]
    } else if frags.len() == 1 {
        frags[0]
    } else {
        join(frags.drop_last()) + seq![' ', '.', ' '] + frags.last()
    }
}

fn is_code_name(name: &String) -> (r: bool)
    ensures
        r == is_code_element(name@),
{
    let pre = String::from_str("pre");
    let code = String::from_str("code");
    proof {
        reveal_strlit("pre");
        reveal_strlit("code");
        assert(pre@ =~= seq!['p', 'r', 'e']);
        assert(code@ =~= seq!['c', 'o', 'd', 'e']);
    }
    *name == pre || *name == code
}

fn push_text_fragment(t: &String, out: &mut Vec<String>)
    ensures
        texts(final(out)@) == texts(old(out)@) + text_fragment(t@),
{
    let tr = trimmed(t.as_str());
    let e = escape_text(tr.as_str());
    if e.unicode_len() > 0 {
        out.push(e);
        assert(texts(out@) =~= texts(old(out)@) + text_fragment(t@));
    } else {
        assert(texts(out@) =~= texts(old(out)@) + text_fragment(t@));
    }
}

/// The number of nodes in the subtree at node `i`.
pub open spec fn size(a: Seq<HtmlNode>, i: int) -> nat
    decreases a.len() - i, a[i].children@.len() + 1,
{
    if 0 <= i < a.len() {
        1 + children_size(a, i, a[i].children@.len())
    } else {
        1
    }
}

/// The number of nodes under the first `k` children of node `i`.
pub open spec fn children_size(a: Seq<HtmlNode>, i: int, k: nat) -> nat
    decreases a.len() - i, k,
{
    if 0 <= i < a.len() && 0 < k <= a[i].children@.len() {
        let c = a[i].children@[k - 1] as int;
        children_size(a, i, (k - 1) as nat) + if i < c < a.len() {
            size(a, c)
        } else {
            0
        }
    } else {
        0
    }
}

/// The fragments of a traversal stack of node indices, top (last) first.
pub open spec fn stack_fragments(a: Seq<HtmlNode>, st: Seq<usize>) -> Seq<Seq<char>>
    decreases st.len(),
{
    if st.len() == 0 {
        seq![]
    } else {
        fragments(a, st.last() as int) + stack_fragments(a, st.drop_last())
    }
}

/// The number of nodes still to visit under a traversal stack.
pub open spec fn stack_size(a: Seq<HtmlNode>, st: Seq<usize>) -> nat
    decreases st.len(),
{
    if st.len() == 0 {
        0
    } else {
        size(a, st.last() as int) + stack_size(a, st.drop_last())
    }
}

/// Appends the fragments of the subtree at node `root` to `out`, in document
/// order, visiting the arena with an explicit stack.
fn collect_fragments(a: &Vec<HtmlNode>, root: usize, out: &mut Vec<String>)
    ensures
        texts(final(out)@) == texts(old(out)@) + fragments(a@, root as int),
{
    let ghost start = texts(out@);
    let mut stack: Vec<usize> = Vec::new();
    stack.push(root);
    assert(stack@.drop_last() =~= Seq::<usize>::empty());
    assert(stack_fragments(a@, stack@.drop_last()) =~= Seq::<Seq<char>>::empty());
    assert(stack_fragments(a@, stack@) =~= fragments(a@, root as int));
    assert(start =~= texts(out@));
    while stack.len() > 0
        invariant
            start + fragments(a@, root as int) == texts(out@) + stack_fragments(a@, stack@),
        decreases stack_size(a@, stack@),
    {
        let ghost before = stack@;
        let i = stack.pop().unwrap();
        let ghost rest = stack@;
        assert(rest =~= before.drop_last());
        assert(stack_fragments(a@, before) == fragments(a@, i as int) + stack_fragments(a@, rest));
        let descend = i < a.len() && match &a[i].kind {
            HtmlKind::Element(name) => !is_code_name(name),
            _ => true,
        };
        if !descend {
            assert(fragments(a@, i as int) =~= Seq::<Seq<char>>::empty());
            assert(texts(out@) + stack_fragments(a@, stack@) =~= texts(out@) + stack_fragments(
                a@,
                before,
            ));
        } else {
            let n = &a[i];
            let ghost o0 = texts(out@);
            match &n.kind {
                HtmlKind::Text(t) => push_text_fragment(t, out),
                HtmlKind::Comment(t) => push_text_fragment(t, out),
                _ => {
                    assert(texts(out@) =~= texts(out@) + own_fragments(n.kind));
                },
            }
            assert(texts(out@) == o0 + own_fragments(n.kind));
            let len = n.children.len();
            let mut j: usize = len;
            while j > 0
                invariant
                    i < a@.len(),
                    *n == a@[i as int],
                    j <= len == n.children@.len(),
                    child_fragments(a@, i as int, j as nat) + stack_fragments(a@, stack@)
                        == child_fragments(a@, i as int, len as nat) + stack_fragments(a@, rest),
                    children_size(a@, i as int, j as nat) + stack_size(a@, stack@)
                        == children_size(a@, i as int, len as nat) + stack_size(a@, rest),
                decreases j,
            {
                let ghost prev = stack@;
                let c = n.children[j - 1];
                if i < c && c < a.len() {
                    stack.push(c);
                    assert(stack@.drop_last() =~= prev);
                }
                assert(child_fragments(a@, i as int, (j - 1) as nat) + stack_fragments(a@, stack@)
                    =~= child_fragments(a@, i as int, j as nat) + stack_fragments(a@, prev));
                j -= 1;
            }
            assert(child_fragments(a@, i as int, 0) =~= Seq::<Seq<char>>::empty());
            assert(stack_fragments(a@, stack@) =~= seq![] + stack_fragments(a@, stack@));
            assert(fragments(a@, i as int) == own_fragments(n.kind) + child_fragments(
                a@,
                i as int,
                len as nat,
            ));
            assert(texts(out@) + stack_fragments(a@, stack@) =~= o0 + fragments(a@, i as int)
                + stack_fragments(a@, rest));
        }
    }
    assert(stack_fragments(a@, stack@) =~= Seq::<Seq<char>>::empty());
    assert(texts(out@) =~= texts(out@) + stack_fragments(a@, stack@));
}

/// The visible text of the document held in arena `doc`, rooted at node 0:
/// each non-empty text or comment node, trimmed and escaped, outside `pre` and
/// `code` elements, in document order, joined by ` . `.
pub fn html_text(doc: &Vec<HtmlNode>) -> (r: String)
    ensures
        r@ == join(fragments(doc@, 0)),
{
    let mut frags: Vec<String> = Vec::new();
    assert(texts(frags@) =~= seq![]);
    collect_fragments(doc, 0, &mut frags);
    let ghost fs = texts(frags@);
    let mut r = String::new();
    let mut i: usize = 0;
    assert(fs.subrange(0, 0) =~= seq![]);
    while i < frags.len()
        invariant
            i <= frags@.len(),
            fs == texts(frags@),
            r@ == join(fs.subrange(0, i as int)),
        decreases frags@.len() - i,
    {
        let ghost prev = fs.subrange(0, i as int);
        assert(fs.subrange(0, i + 1).drop_last() =~= prev);
        if i > 0 {
            r.append(" . ");
            proof { reveal_strlit(" . "); }
            assert(" . "@ =~= seq![' ', '.', ' ']);
        }
        r.append(frags[i].as_str());
        assert(fs[i as int] == frags@[i as int]@);
        assert(r@ =~= join(fs.subrange(0, i + 1)));
        i += 1;
    }
    assert(fs.subrange(0, fs.len() as int) =~= fs);
    r
}

/// The normaliser's outcome on already-extracted HTML text: code left in it
/// is masked, then it is scanned as in `clean_text`.
pub fn clean_extracted_html(text: &str) -> (r: (Vec<String>, usize, usize))
    ensures
        (texts(r.0@), r.1 as nat, r.2 as nat) == clean_spec(code_masked(text@)),
{
    let masked = mask_code(text);
    clean_text(masked.as_str())
}

/// Parses `text` as HTML, extracts its visible text, masks leftover code and
/// normalises the result.
pub fn clean_text_with_html(text: &str) -> (r: (Vec<String>, usize, usize))
    requires
        text@.len() <= MAX_HTML_CHARS,
    ensures
        (texts(r.0@), r.1 as nat, r.2 as nat) == clean_spec(
            code_masked(join(fragments(html_tree_of(text@), 0))),
        ),
{
    let doc = parse_html_tree(text);
    let joined = html_text(&doc);
    clean_extracted_html(joined.as_str())
}

} // verus!
