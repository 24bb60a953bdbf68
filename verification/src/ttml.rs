//! Lyrics documents (TTML): how the text of a line is gathered from its
//! children, which lines a document holds, how their begin times are read,
//! and how synchronized lines are written.
use vstd::prelude::*;

use roxmltree::Document;
use roxmltree::NodeType::{
    Comment as CommentNode, Element as ElementNode, Root as RootNode, Text as TextNode, PI as PiNode,
};

use crate::api::{join, AppleMusicApiError};
use crate::text::{
    chars_eq, chars_eq_str, chars_range, chars_to_string, contains, contains_chars, decimal,
    fields_view, int_error_message, is_white, is_whitespace, parse_unsigned, parse_unsigned_chars,
    owned, push_all, push_decimal, push_str, split_chars, split_on, str_chars, trim, trim_chars,
};

verus! {

/// A node of a parsed XML document.
#[derive(Debug)]
pub enum XmlNode {
    /// Character data.
    Text(String),
    /// An element with its local name, its attributes in order (each with
    /// its namespace, if it has one, its local name and its value), and its
    /// children in order. The document root is an element with an empty name.
    Element {
        name: String,
        attributes: Vec<(Option<String>, String, String)>,
        children: Vec<XmlNode>,
    },
    /// A comment.
    Comment(String),
    /// A processing instruction.
    Other,
}

/// Where a piece of an element's text comes from.
#[derive(Clone, Copy, Debug, PartialEq, Eq, Structural)]
pub enum PieceKind {
    /// Character data directly inside the element.
    DirectText,
    /// A child element without element children.
    LeafElement,
    /// A child element with element children.
    NestedElement,
}

/// Whether `s` holds a character that is not whitespace.
pub open spec fn has_non_white(s: Seq<char>) -> bool {
    exists|i: int| 0 <= i < s.len() && !is_white(#[trigger] s[i])
}

/// Whether one of `cs` is an element.
pub open spec fn has_element(cs: Seq<XmlNode>) -> bool {
    exists|i: int| 0 <= i < cs.len() && (#[trigger] cs[i]) is Element
}

/// The rendered text of a node.
pub open spec fn render_text(n: XmlNode) -> Seq<char>
    decreases n, 1nat,
{
    match n {
        XmlNode::Element { children, .. } => {
            proof {
                assert(decreases_to!(n => children));
                assert(decreases_to!(children => children@));
            }
            combine(pieces_of(children@))
        },
        _ => Seq::empty(),
    }
}

/// The pieces that the children `cs` contribute, in order.
pub open spec fn pieces_of(cs: Seq<XmlNode>) -> Seq<(PieceKind, Seq<char>)>
    decreases cs, 0nat,
{
    if cs.len() == 0 {
        Seq::empty()
    } else {
        let prev = pieces_of(cs.subrange(0, cs.len() - 1));
        let c = cs[cs.len() - 1];
        match c {
            XmlNode::Text(t) => if has_non_white(t@) {
                prev.push((PieceKind::DirectText, t@))
            } else {
                prev
            },
            XmlNode::Element { children, .. } => {
                let text = render_text(c);
                if trim(text).len() == 0 {
                    prev
                } else if has_element(children@) {
                    prev.push((PieceKind::NestedElement, text))
                } else {
                    prev.push((PieceKind::LeafElement, text))
                }
            },
            XmlNode::Comment(_) => prev,
            XmlNode::Other => prev,
        }
    }
}

/// Whether every piece comes from a nested element.
pub open spec fn all_nested(ps: Seq<(PieceKind, Seq<char>)>) -> bool {
    forall|i: int| 0 <= i < ps.len() ==> (#[trigger] ps[i]).0 == PieceKind::NestedElement
}

/// Whether some piece comes from a nested element.
pub open spec fn any_nested(ps: Seq<(PieceKind, Seq<char>)>) -> bool {
    exists|i: int| 0 <= i < ps.len() && (#[trigger] ps[i]).0 == PieceKind::NestedElement
}

/// Whether no piece comes from a leaf element.
pub open spec fn no_leaf(ps: Seq<(PieceKind, Seq<char>)>) -> bool {
    forall|i: int| 0 <= i < ps.len() ==> (#[trigger] ps[i]).0 != PieceKind::LeafElement
}

/// Whether every piece, trimmed, is `t`.
pub open spec fn all_trim_to(ps: Seq<(PieceKind, Seq<char>)>, t: Seq<char>) -> bool {
    forall|i: int| 0 <= i < ps.len() ==> trim((#[trigger] ps[i]).1) == t
}

/// Whether every nested piece, trimmed, is `t`.
pub open spec fn nested_trim_to(ps: Seq<(PieceKind, Seq<char>)>, t: Seq<char>) -> bool {
    forall|i: int|
        0 <= i < ps.len() && (#[trigger] ps[i]).0 == PieceKind::NestedElement ==> trim(ps[i].1) == t
}

/// The texts of the direct pieces, concatenated.
pub open spec fn direct_text(ps: Seq<(PieceKind, Seq<char>)>) -> Seq<char>
    decreases ps.len(),
{
    if ps.len() == 0 {
        Seq::empty()
    } else if ps.last().0 == PieceKind::DirectText {
        direct_text(ps.drop_last()) + ps.last().1
    } else {
        direct_text(ps.drop_last())
    }
}

/// The texts of all pieces, concatenated.
pub open spec fn all_text(ps: Seq<(PieceKind, Seq<char>)>) -> Seq<char>
    decreases ps.len(),
{
    if ps.len() == 0 {
        Seq::empty()
    } else {
        all_text(ps.drop_last()) + ps.last().1
    }
}

/// The text of an element from its pieces. Parallel nested branches that all
/// say the same line give that line once; direct text that every nested
/// branch repeats, with no leaf element beside it, is given once; else every
/// piece is concatenated.
pub open spec fn combine(ps: Seq<(PieceKind, Seq<char>)>) -> Seq<char> {
    if ps.len() == 0 {
        Seq::empty()
    } else if all_nested(ps) && trim(ps[0].1).len() > 0 && all_trim_to(ps, trim(ps[0].1)) {
        trim(ps[0].1)
    } else {
        let d = trim(direct_text(ps));
        if any_nested(ps) && d.len() > 0 && nested_trim_to(ps, d) && no_leaf(ps) {
            d
        } else {
            all_text(ps)
        }
    }
}

/// Whether the child `c` contributes nothing, or a nested branch whose text
/// trims to `line`.
pub open spec fn is_branch_of(c: XmlNode, line: Seq<char>) -> bool {
    match c {
        XmlNode::Text(t) => !has_non_white(t@),
        XmlNode::Element { children, .. } => has_element(children@) && trim(render_text(c)) == line,
        _ => true,
    }
}

proof fn lemma_branch_pieces(cs: Seq<XmlNode>, line: Seq<char>)
    requires
        line.len() > 0,
        forall|i: int| 0 <= i < cs.len() ==> is_branch_of(#[trigger] cs[i], line),
    ensures
        all_nested(pieces_of(cs)),
        all_trim_to(pieces_of(cs), line),
        has_element(cs) ==> pieces_of(cs).len() > 0,
    decreases cs.len(),
{
    if cs.len() > 0 {
        let pre = cs.subrange(0, cs.len() - 1);
        assert forall|i: int| 0 <= i < pre.len() implies is_branch_of(#[trigger] pre[i], line) by {
            assert(pre[i] == cs[i]);
        }
        lemma_branch_pieces(pre, line);
        let c = cs[cs.len() - 1];
        assert(is_branch_of(c, line));
        let prev = pieces_of(pre);
        let ps = pieces_of(cs);
        match c {
            XmlNode::Element { children, .. } => {
                assert(trim(render_text(c)).len() > 0);
                assert(ps == prev.push((PieceKind::NestedElement, render_text(c))));
                assert forall|i: int| 0 <= i < ps.len() implies (#[trigger] ps[i]).0 == PieceKind::NestedElement by {
                    if i < prev.len() {
                        assert(ps[i] == prev[i]);
                    }
                }
                assert forall|i: int| 0 <= i < ps.len() implies trim((#[trigger] ps[i]).1) == line by {
                    if i < prev.len() {
                        assert(ps[i] == prev[i]);
                    }
                }
            },
            _ => {
                assert(ps == prev);
                if has_element(cs) {
                    let k = choose|k: int| 0 <= k < cs.len() && (#[trigger] cs[k]) is Element;
                    assert(k < cs.len() - 1);
                    assert(pre[k] == cs[k]);
                    assert(has_element(pre));
                }
            },
        }
    }
}

/// Law: a line whose text comes only from parallel nested branches that all
/// say the same text gives that text once, not once per branch.
pub proof fn law_parallel_branches_render_once(n: XmlNode, line: Seq<char>)
    requires
        line.len() > 0,
        n matches XmlNode::Element { children, .. } && (exists|i: int|
            0 <= i < children@.len() && (#[trigger] children@[i]) is Element) && (forall|i: int|
            0 <= i < children@.len() ==> is_branch_of(#[trigger] children@[i], line)),
    ensures
        render_text(n) == line,
{
    match n {
        XmlNode::Element { children, .. } => {
            lemma_branch_pieces(children@, line);
            assert(has_element(children@));
        },
        _ => {},
    }
}

/// Whether `v` holds a non-whitespace character.
fn chars_have_non_white(v: &Vec<char>) -> (b: bool)
    ensures
        b == has_non_white(v@),
{
    let mut i: usize = 0;
    while i < v.len()
        invariant
            i <= v@.len(),
            forall|k: int| 0 <= k < i ==> is_white(#[trigger] v@[k]),
        decreases v.len() - i,
    {
        if !is_whitespace(v[i]) {
            return true;
        }
        i += 1;
    }
    false
}

/// Whether one of `cs` is an element.
fn children_have_element(cs: &Vec<XmlNode>) -> (b: bool)
    ensures
        b == has_element(cs@),
{
    let mut i: usize = 0;
    while i < cs.len()
        invariant
            i <= cs@.len(),
            forall|k: int| 0 <= k < i ==> !((#[trigger] cs@[k]) is Element),
        decreases cs.len() - i,
    {
        match &cs[i] {
            XmlNode::Element { .. } => {
                return true;
            },
            _ => {},
        }
        i += 1;
    }
    false
}

/// The view of the pieces gathered so far.
pub open spec fn pieces_view(v: Seq<(PieceKind, Vec<char>)>) -> Seq<(PieceKind, Seq<char>)> {
    v.map_values(|p: (PieceKind, Vec<char>)| (p.0, p.1@))
}

/// Joins the pieces' texts as `combine` says.
fn combine_pieces(ps: &Vec<(PieceKind, Vec<char>)>) -> (out: Vec<char>)
    ensures
        out@ == combine(pieces_view(ps@)),
{
    let ghost pv = pieces_view(ps@);
    if ps.len() == 0 {
        return Vec::new();
    }
    let candidate = trim_chars(&ps[0].1);
    let mut all_nested_same = candidate.len() > 0;
    let mut any_nested_seen = false;
    let mut leaf_seen = false;
    let mut direct: Vec<char> = Vec::new();
    let mut everything: Vec<char> = Vec::new();
    let mut i: usize = 0;
    while i < ps.len()
        invariant
            i <= ps@.len(),
            pv == pieces_view(ps@),
            pv.len() == ps@.len(),
            ps@.len() > 0,
            candidate@ == trim(pv[0].1),
            all_nested_same == (trim(pv[0].1).len() > 0 && all_nested(pv.subrange(0, i as int))
                && all_trim_to(pv.subrange(0, i as int), trim(pv[0].1))),
            any_nested_seen == any_nested(pv.subrange(0, i as int)),
            leaf_seen == !no_leaf(pv.subrange(0, i as int)),
            direct@ == direct_text(pv.subrange(0, i as int)),
            everything@ == all_text(pv.subrange(0, i as int)),
        decreases ps.len() - i,
    {
        let kind = ps[i].0;
        let ghost pre = pv.subrange(0, i as int);
        let ghost next = pv.subrange(0, i + 1);
        proof {
            assert(next.drop_last() =~= pre);
            assert(next.last() == pv[i as int]);
            assert(pv[i as int] == (ps@[i as int].0, ps@[i as int].1@));
        }
        if kind == PieceKind::NestedElement {
            any_nested_seen = true;
            if all_nested_same {
                let t = trim_chars(&ps[i].1);
                all_nested_same = chars_eq(&t, &candidate);
            }
        } else {
            all_nested_same = false;
        }
        if kind == PieceKind::LeafElement {
            leaf_seen = true;
        }
        if kind == PieceKind::DirectText {
            push_all(&mut direct, &ps[i].1);
        }
        push_all(&mut everything, &ps[i].1);
        proof {
            assert forall|k: int| 0 <= k < next.len() implies #[trigger] next[k] == if k < i {
                pre[k]
            } else {
                pv[i as int]
            } by {}
            if any_nested(next) {
                let k = choose|k: int| 0 <= k < next.len() && (#[trigger] next[k]).0 == PieceKind::NestedElement;
                if k < i {
                    assert(pre[k] == next[k]);
                }
            }
            if any_nested(pre) {
                let k = choose|k: int| 0 <= k < pre.len() && (#[trigger] pre[k]).0 == PieceKind::NestedElement;
                assert(next[k] == pre[k]);
            }
            if !no_leaf(next) {
                let k = choose|k: int| 0 <= k < next.len() && (#[trigger] next[k]).0 == PieceKind::LeafElement;
                if k < i {
                    assert(pre[k] == next[k]);
                }
            }
            if !no_leaf(pre) {
                let k = choose|k: int| 0 <= k < pre.len() && (#[trigger] pre[k]).0 == PieceKind::LeafElement;
                assert(next[k] == pre[k]);
            }
            if i == 0 {
                assert(pre.len() == 0);
            }
        }
        i += 1;
    }
    proof {
        assert(pv.subrange(0, pv.len() as int) =~= pv);
    }
    if all_nested_same {
        return candidate;
    }
    let d = trim_chars(&direct);
    if any_nested_seen && d.len() > 0 && !leaf_seen {
        let mut same = true;
        let mut j: usize = 0;
        while j < ps.len()
            invariant
                j <= ps@.len(),
                pv == pieces_view(ps@),
                pv.len() == ps@.len(),
                d@ == trim(direct_text(pv)),
                same == forall|k: int|
                    0 <= k < j && (#[trigger] pv[k]).0 == PieceKind::NestedElement ==> trim(pv[k].1)
                        == d@,
            decreases ps.len() - j,
        {
            proof {
                assert(pv[j as int] == (ps@[j as int].0, ps@[j as int].1@));
            }
            if ps[j].0 == PieceKind::NestedElement && same {
                let t = trim_chars(&ps[j].1);
                same = chars_eq(&t, &d);
            }
            j += 1;
        }
        if same {
            return d;
        }
    }
    everything
}

/// The rendered text of `node`: for an element, the text of its children as
/// `combine` joins their pieces; nothing for other nodes.
pub fn render_node_text(node: &XmlNode) -> (out: String)
    ensures
        out@ == render_text(*node),
    decreases node,
{
    let v = render_chars(node);
    chars_to_string(&v)
}

/// The rendered text of `node` as characters.
fn render_chars(node: &XmlNode) -> (out: Vec<char>)
    ensures
        out@ == render_text(*node),
    decreases node, 1nat,
{
    match node {
        XmlNode::Element { children, .. } => {
            let ps = gather_pieces(children);
            combine_pieces(&ps)
        },
        _ => Vec::new(),
    }
}

/// The pieces that `children` contribute.
fn gather_pieces(children: &Vec<XmlNode>) -> (ps: Vec<(PieceKind, Vec<char>)>)
    ensures
        pieces_view(ps@) == pieces_of(children@),
    decreases children, 0nat,
{
    let mut ps: Vec<(PieceKind, Vec<char>)> = Vec::new();
    let mut i: usize = 0;
    while i < children.len()
        invariant
            i <= children@.len(),
            pieces_view(ps@) == pieces_of(children@.subrange(0, i as int)),
        decreases children.len() - i,
    {
        let ghost pre = children@.subrange(0, i as int);
        let ghost next = children@.subrange(0, i + 1);
        assert(next.subrange(0, next.len() - 1) =~= pre);
        assert(next[next.len() - 1] == children@[i as int]);
        let child = &children[i];
        match child {
            XmlNode::Text(t) => {
                let tv = str_chars(t.as_str());
                if chars_have_non_white(&tv) {
                    ps.push((PieceKind::DirectText, tv));
                    assert(pieces_view(ps@) =~= pieces_view(ps@.drop_last()).push(
                        (PieceKind::DirectText, t@),
                    ));
                }
            },
            XmlNode::Element { children: grand, .. } => {
                proof {
                    assert(decreases_to!(children => children@));
                    assert(decreases_to!(children@ => children@[i as int]));
                }
                let text = render_chars(child);
                let trimmed = trim_chars(&text);
                if trimmed.len() > 0 {
                    let kind = if children_have_element(grand) {
                        PieceKind::NestedElement
                    } else {
                        PieceKind::LeafElement
                    };
                    ps.push((kind, text));
                    assert(pieces_view(ps@) =~= pieces_view(ps@.drop_last()).push(
                        (kind, render_text(*child)),
                    ));
                }
            },
            XmlNode::Comment(_) => {},
            XmlNode::Other => {},
        }
        i += 1;
    }
    assert(children@.subrange(0, children@.len() as int) =~= children@);
    ps
}

/// The trimmed rendered text of `node`.
pub fn node_text(node: &XmlNode) -> (out: String)
    ensures
        out@ == trim(render_text(*node)),
{
    let v = render_chars(node);
    let t = trim_chars(&v);
    chars_to_string(&t)
}

/// `n` written with at least two digits.
pub open spec fn two_digits(n: nat) -> Seq<char> {
    if n < 10 {
        seq!['0'] + decimal(n)
    } else {
        decimal(n)
    }
}

/// One synchronized lyrics line: `[mm:ss.cc]` and the text.
pub open spec fn lrc_line(minute: u32, second: u32, centisecond: u32, text: Seq<char>) -> Seq<char> {
    seq!['['] + two_digits(minute as nat) + seq![':'] + two_digits(second as nat) + seq!['.']
        + two_digits(centisecond as nat) + seq![']'] + text
}

fn push_two_digits(out: &mut Vec<char>, n: u32)
    ensures
        final(out)@ == old(out)@ + two_digits(n as nat),
{
    if n < 10 {
        out.push('0');
    }
    let ghost mid = out@;
    push_decimal(out, n as u64);
    proof {
        if n < 10 {
            assert(mid == old(out)@.push('0'));
            assert(out@ =~= old(out)@ + two_digits(n as nat));
        }
    }
}

/// Writes one synchronized lyrics line.
pub fn format_lrc_line(minute: u32, second: u32, centisecond: u32, text: &str) -> (line: String)
    ensures
        line@ == lrc_line(minute, second, centisecond, text@),
{
    let mut out: Vec<char> = Vec::new();
    out.push('[');
    push_two_digits(&mut out, minute);
    out.push(':');
    push_two_digits(&mut out, second);
    out.push('.');
    push_two_digits(&mut out, centisecond);
    out.push(']');
    let tv = str_chars(text);
    push_all(&mut out, &tv);
    assert(out@ =~= lrc_line(minute, second, centisecond, text@));
    chars_to_string(&out)
}


// ---------------------------------------------------------------------------
// The lines of a document
// ---------------------------------------------------------------------------

/// The text that `roxmltree::Node::text` gives for one node: character data
/// and comments their own text, an element the character data of its first
/// child when that child is character data.
pub open spec fn own_text(n: XmlNode) -> Seq<char> {
    match n {
        XmlNode::Text(t) => t@,
        XmlNode::Comment(t) => t@,
        XmlNode::Element { children, .. } => if children@.len() > 0 {
            match children@[0] {
                XmlNode::Text(t) => t@,
                _ => Seq::empty(),
            }
        } else {
            Seq::empty()
        },
        XmlNode::Other => Seq::empty(),
    }
}

/// The texts of `n` and all its descendants in document order, joined.
pub open spec fn flat_text(n: XmlNode) -> Seq<char>
    decreases n, 1nat,
{
    match n {
        XmlNode::Element { children, .. } => {
            proof {
                assert(decreases_to!(n => children));
                assert(decreases_to!(children => children@));
            }
            own_text(n) + flat_texts(children@)
        },
        _ => own_text(n),
    }
}

/// The flat texts of `cs`, joined.
pub open spec fn flat_texts(cs: Seq<XmlNode>) -> Seq<char>
    decreases cs, 0nat,
{
    if cs.len() == 0 {
        Seq::empty()
    } else {
        flat_texts(cs.subrange(0, cs.len() - 1)) + flat_text(cs[cs.len() - 1])
    }
}

/// How the text of a lyrics line is gathered.
#[derive(Clone, Copy, Debug, PartialEq, Eq, Structural)]
pub enum TextStyle {
    /// Every text of the line and its descendants, joined.
    Flat,
    /// The rendered text, which gives parallel nested branches once.
    Rendered,
}

/// The trimmed text of a lyrics line.
pub open spec fn line_text(n: XmlNode, style: TextStyle) -> Seq<char> {
    match style {
        TextStyle::Flat => trim(flat_text(n)),
        TextStyle::Rendered => trim(render_text(n)),
    }
}

/// Whether `n` is an element named `p`.
pub open spec fn is_p(n: XmlNode) -> bool {
    n matches XmlNode::Element { name, .. } && name@ == "p"@
}

/// The `p` elements of `n` and its descendants, in document order.
pub open spec fn p_elements(n: XmlNode) -> Seq<XmlNode>
    decreases n, 1nat,
{
    let own: Seq<XmlNode> = if is_p(n) {
        seq![n]
    } else {
        Seq::empty()
    };
    match n {
        XmlNode::Element { children, .. } => {
            proof {
                assert(decreases_to!(n => children));
                assert(decreases_to!(children => children@));
            }
            own + p_elements_of(children@)
        },
        _ => own,
    }
}

/// The `p` elements of `cs` and their descendants, in document order.
pub open spec fn p_elements_of(cs: Seq<XmlNode>) -> Seq<XmlNode>
    decreases cs, 0nat,
{
    if cs.len() == 0 {
        Seq::empty()
    } else {
        p_elements_of(cs.subrange(0, cs.len() - 1)) + p_elements(cs[cs.len() - 1])
    }
}

/// The value of the first attribute of `n` without a namespace named `key`.
pub open spec fn attribute_of(n: XmlNode, key: Seq<char>) -> Option<Seq<char>> {
    match n {
        XmlNode::Element { attributes, .. } => first_attribute(attributes@, key),
        _ => None,
    }
}

/// The value of the first attribute of `attrs` without a namespace named
/// `key`.
pub open spec fn first_attribute(
    attrs: Seq<(Option<String>, String, String)>,
    key: Seq<char>,
) -> Option<Seq<char>>
    decreases attrs.len(),
{
    if attrs.len() == 0 {
        None
    } else if attrs[0].0 is None && attrs[0].1@ == key {
        Some(attrs[0].2@)
    } else {
        first_attribute(attrs.drop_first(), key)
    }
}

/// The texts of the lines `ps` that are not empty, in order.
pub open spec fn untimed_lines(ps: Seq<XmlNode>, style: TextStyle) -> Seq<Seq<char>>
    decreases ps.len(),
{
    if ps.len() == 0 {
        Seq::empty()
    } else {
        let prev = untimed_lines(ps.drop_last(), style);
        let t = line_text(ps.last(), style);
        if t.len() > 0 {
            prev.push(t)
        } else {
            prev
        }
    }
}

/// The text of a synchronized line: its `text` attribute when that is not
/// blank, trimmed; else the text of the line.
pub open spec fn timed_text(p: XmlNode, style: TextStyle) -> Seq<char> {
    match attribute_of(p, "text"@) {
        Some(t) => if trim(t).len() > 0 {
            trim(t)
        } else {
            line_text(p, style)
        },
        None => line_text(p, style),
    }
}

/// The begin time and text of each line of `ps` that has a begin time and a
/// text, in order.
pub open spec fn timed_entries(ps: Seq<XmlNode>, style: TextStyle) -> Seq<(Seq<char>, Seq<char>)>
    decreases ps.len(),
{
    if ps.len() == 0 {
        Seq::empty()
    } else {
        let prev = timed_entries(ps.drop_last(), style);
        match attribute_of(ps.last(), "begin"@) {
            None => prev,
            Some(b) => {
                let t = timed_text(ps.last(), style);
                if t.len() > 0 {
                    prev.push((b, t))
                } else {
                    prev
                }
            },
        }
    }
}

/// The mark of a document whose lines carry no times.
pub const UNTIMED_MARK: &'static str = "itunes:timing=\"None\"";

/// Whether the document text says that its lines carry no times.
pub fn is_untimed_ttml(ttml: &str) -> (b: bool)
    ensures
        b == contains(ttml@, UNTIMED_MARK@),
{
    let t = str_chars(ttml);
    contains_chars(&t, &str_chars(UNTIMED_MARK))
}

/// The view of a list of node references.
pub open spec fn refs_view(v: Seq<&XmlNode>) -> Seq<XmlNode> {
    v.map_values(|r: &XmlNode| *r)
}

/// Appends the `p` elements of `n` and its descendants.
fn collect_p<'a>(n: &'a XmlNode, out: &mut Vec<&'a XmlNode>)
    ensures
        refs_view(final(out)@) == refs_view(old(out)@) + p_elements(*n),
    decreases n, 1nat,
{
    match n {
        XmlNode::Element { name, children, .. } => {
            let ghost before = refs_view(out@);
            let nv = str_chars(name.as_str());
            if chars_eq_str(&nv, "p") {
                out.push(n);
                assert(refs_view(out@) =~= before.push(*n));
            }
            let ghost mid = refs_view(out@);
            proof {
                assert(decreases_to!(n => children));
            }
            collect_p_children(children, out);
            proof {
                if is_p(*n) {
                    assert(before + p_elements(*n) =~= before.push(*n) + p_elements_of(children@));
                } else {
                    assert(mid =~= before);
                    assert(before + p_elements(*n) =~= before + p_elements_of(children@));
                }
            }
        },
        _ => {
            assert(refs_view(out@) =~= refs_view(out@) + p_elements(*n));
        },
    }
}

/// Appends the `p` elements of `cs` and their descendants.
fn collect_p_children<'a>(cs: &'a Vec<XmlNode>, out: &mut Vec<&'a XmlNode>)
    ensures
        refs_view(final(out)@) == refs_view(old(out)@) + p_elements_of(cs@),
    decreases cs, 0nat,
{
    let ghost start = refs_view(out@);
    let mut i: usize = 0;
    assert(start =~= start + p_elements_of(cs@.subrange(0, 0)));
    while i < cs.len()
        invariant
            i <= cs@.len(),
            refs_view(out@) == start + p_elements_of(cs@.subrange(0, i as int)),
        decreases cs.len() - i,
    {
        proof {
            assert(decreases_to!(cs => cs@));
            assert(decreases_to!(cs@ => cs@[i as int]));
            let next = cs@.subrange(0, i + 1);
            assert(next.subrange(0, next.len() - 1) =~= cs@.subrange(0, i as int));
            assert(next[next.len() - 1] == cs@[i as int]);
        }
        collect_p(&cs[i], out);
        proof {
            assert(start + p_elements_of(cs@.subrange(0, i as int)) + p_elements(cs@[i as int]) =~= start
                + p_elements_of(cs@.subrange(0, i + 1)));
        }
        i += 1;
    }
    assert(cs@.subrange(0, cs@.len() as int) =~= cs@);
}

/// Appends the flat text of `n`.
fn push_flat_text(n: &XmlNode, out: &mut Vec<char>)
    ensures
        final(out)@ == old(out)@ + flat_text(*n),
    decreases n, 1nat,
{
    match n {
        XmlNode::Text(t) => {
            let tv = str_chars(t.as_str());
            push_all(out, &tv);
        },
        XmlNode::Comment(t) => {
            let tv = str_chars(t.as_str());
            push_all(out, &tv);
        },
        XmlNode::Element { children, .. } => {
            let ghost before = out@;
            if children.len() > 0 {
                match &children[0] {
                    XmlNode::Text(t) => {
                        let tv = str_chars(t.as_str());
                        push_all(out, &tv);
                    },
                    _ => {},
                }
            }
            assert(out@ == before + own_text(*n));
            proof {
                assert(decreases_to!(n => children));
            }
            push_flat_children(children, out);
            assert(out@ =~= before + flat_text(*n));
        },
        XmlNode::Other => {
            assert(out@ =~= out@ + flat_text(*n));
        },
    }
}

/// Appends the flat texts of `cs`.
fn push_flat_children(cs: &Vec<XmlNode>, out: &mut Vec<char>)
    ensures
        final(out)@ == old(out)@ + flat_texts(cs@),
    decreases cs, 0nat,
{
    let ghost start = out@;
    let mut i: usize = 0;
    assert(start =~= start + flat_texts(cs@.subrange(0, 0)));
    while i < cs.len()
        invariant
            i <= cs@.len(),
            out@ == start + flat_texts(cs@.subrange(0, i as int)),
        decreases cs.len() - i,
    {
        proof {
            assert(decreases_to!(cs => cs@));
            assert(decreases_to!(cs@ => cs@[i as int]));
            let next = cs@.subrange(0, i + 1);
            assert(next.subrange(0, next.len() - 1) =~= cs@.subrange(0, i as int));
            assert(next[next.len() - 1] == cs@[i as int]);
        }
        push_flat_text(&cs[i], out);
        proof {
            assert(start + flat_texts(cs@.subrange(0, i as int)) + flat_text(cs@[i as int]) =~= start
                + flat_texts(cs@.subrange(0, i + 1)));
        }
        i += 1;
    }
    assert(cs@.subrange(0, cs@.len() as int) =~= cs@);
}

/// The trimmed text of a lyrics line in `style`.
fn line_text_chars(n: &XmlNode, style: TextStyle) -> (out: Vec<char>)
    ensures
        out@ == line_text(*n, style),
{
    match style {
        TextStyle::Flat => {
            let mut v: Vec<char> = Vec::new();
            push_flat_text(n, &mut v);
            assert(v@ =~= flat_text(*n));
            trim_chars(&v)
        },
        TextStyle::Rendered => {
            let v = render_chars(n);
            trim_chars(&v)
        },
    }
}

/// The value of the first attribute of `n` without a namespace named `key`.
fn attribute_value(n: &XmlNode, key: &str) -> (r: Option<String>)
    ensures
        match r {
            Some(v) => attribute_of(*n, key@) == Some(v@),
            None => attribute_of(*n, key@) is None,
        },
{
    match n {
        XmlNode::Element { attributes, .. } => {
            let mut i: usize = 0;
            assert(attributes@.subrange(0, attributes@.len() as int) =~= attributes@);
            while i < attributes.len()
                invariant
                    i <= attributes@.len(),
                    attribute_of(*n, key@) == first_attribute(attributes@, key@),
                    first_attribute(attributes@, key@) == first_attribute(
                        attributes@.subrange(i as int, attributes@.len() as int),
                        key@,
                    ),
                decreases attributes.len() - i,
            {
                let ghost rest = attributes@.subrange(i as int, attributes@.len() as int);
                proof {
                    assert(rest.drop_first() =~= attributes@.subrange(i + 1, attributes@.len() as int));
                    assert(rest[0] == attributes@[i as int]);
                }
                let kv = str_chars(attributes[i].1.as_str());
                if attributes[i].0.is_none() && chars_eq_str(&kv, key) {
                    let v = attributes[i].2.clone();
                    assert(first_attribute(rest, key@) == Some(attributes@[i as int].2@));
                    return Some(v);
                }
                i += 1;
            }
            None
        },
        _ => None,
    }
}

/// `lines` joined with newlines.
fn join_newlines(lines: &Vec<Vec<char>>) -> (out: Vec<char>)
    ensures
        out@ == join(fields_view(lines@), "\n"@),
{
    let mut out: Vec<char> = Vec::new();
    let mut i: usize = 0;
    proof {
        reveal_strlit("\n");
    }
    while i < lines.len()
        invariant
            i <= lines@.len(),
            "\n"@ == seq!['\n'],
            out@ == join(fields_view(lines@.subrange(0, i as int)), "\n"@),
        decreases lines.len() - i,
    {
        let ghost pre = fields_view(lines@.subrange(0, i as int));
        let ghost next = fields_view(lines@.subrange(0, i + 1));
        proof {
            assert(next.drop_last() =~= pre);
            assert(next.last() == lines@[i as int]@);
        }
        if i > 0 {
            out.push('\n');
        }
        push_all(&mut out, &lines[i]);
        proof {
            if i == 0 {
                assert(next.len() == 1);
                assert(out@ =~= next[0]);
            } else {
                assert(out@ =~= join(pre, "\n"@) + "\n"@ + next.last());
            }
        }
        i += 1;
    }
    assert(lines@.subrange(0, lines@.len() as int) =~= lines@);
    out
}

/// The line texts of an unsynchronized document, joined with newlines; a
/// document without any is refused.
pub fn untimed_lyrics(root: &XmlNode, style: TextStyle) -> (r: Result<String, AppleMusicApiError>)
    ensures
        ({
            let lines = untimed_lines(p_elements(*root), style);
            if lines.len() > 0 {
                r matches Ok(s) && s@ == join(lines, "\n"@)
            } else {
                r matches Err(AppleMusicApiError::Message(m)) && m@
                    == "lyrics ttml did not contain any lines"@
            }
        }),
{
    let mut ps: Vec<&XmlNode> = Vec::new();
    collect_p(root, &mut ps);
    assert(refs_view(ps@) =~= p_elements(*root));
    let ghost pv = refs_view(ps@);
    let mut lines: Vec<Vec<char>> = Vec::new();
    let mut i: usize = 0;
    while i < ps.len()
        invariant
            i <= ps@.len(),
            pv == refs_view(ps@),
            fields_view(lines@) == untimed_lines(pv.subrange(0, i as int), style),
        decreases ps.len() - i,
    {
        let ghost next = pv.subrange(0, i + 1);
        proof {
            assert(next.drop_last() =~= pv.subrange(0, i as int));
            assert(next.last() == *ps@[i as int]);
        }
        let t = line_text_chars(ps[i], style);
        if t.len() > 0 {
            let ghost before = fields_view(lines@);
            lines.push(t);
            assert(fields_view(lines@) =~= before.push(t@));
        }
        i += 1;
    }
    assert(pv.subrange(0, pv.len() as int) =~= pv);
    if lines.len() == 0 {
        return Err(AppleMusicApiError::Message("lyrics ttml did not contain any lines".to_string()));
    }
    Ok(chars_to_string(&join_newlines(&lines)))
}

/// The text of an optional string, empty when there is none.
pub open spec fn opt_text(t: Option<&str>) -> Seq<char> {
    match t {
        Some(x) => x@,
        None => Seq::empty(),
    }
}

/// An element named `name` with owned copies of `attributes` and with
/// `children`.
pub(crate) fn element_node(
    name: &str,
    attributes: Vec<(Option<&str>, &str, &str)>,
    children: Vec<XmlNode>,
) -> (n: XmlNode)
    ensures
        n matches XmlNode::Element { name: nm, attributes: at, children: ch } && nm@ == name@
            && ch == children && at@.len() == attributes@.len() && (forall|i: int|
            0 <= i < at@.len() ==> {
                &&& (#[trigger] at@[i]).1@ == attributes@[i].1@
                &&& at@[i].2@ == attributes@[i].2@
                &&& match (at@[i].0, attributes@[i].0) {
                    (Some(x), Some(y)) => x@ == y@,
                    (None, None) => true,
                    _ => false,
                }
            }),
{
    let mut at: Vec<(Option<String>, String, String)> = Vec::new();
    let mut i: usize = 0;
    while i < attributes.len()
        invariant
            i <= attributes@.len(),
            at@.len() == i,
            forall|k: int|
                0 <= k < i ==> {
                    &&& (#[trigger] at@[k]).1@ == attributes@[k].1@
                    &&& at@[k].2@ == attributes@[k].2@
                    &&& match (at@[k].0, attributes@[k].0) {
                        (Some(x), Some(y)) => x@ == y@,
                        (None, None) => true,
                        _ => false,
                    }
                },
        decreases attributes.len() - i,
    {
        let (ns, local, value) = attributes[i];
        let owned_ns = match ns {
            Some(x) => Some(owned(x)),
            None => None,
        };
        at.push((owned_ns, owned(local), owned(value)));
        i += 1;
    }
    XmlNode::Element { name: owned(name), attributes: at, children }
}

/// A text node holding `t` (empty when there is none).
pub(crate) fn text_node(t: Option<&str>) -> (n: XmlNode)
    ensures
        n matches XmlNode::Text(s) && s@ == opt_text(t),
{
    match t {
        Some(x) => XmlNode::Text(owned(x)),
        None => XmlNode::Text(String::new()),
    }
}

/// A comment node holding `t` (empty when there is none).
pub(crate) fn comment_node(t: Option<&str>) -> (n: XmlNode)
    ensures
        n matches XmlNode::Comment(s) && s@ == opt_text(t),
{
    match t {
        Some(x) => XmlNode::Comment(owned(x)),
        None => XmlNode::Comment(String::new()),
    }
}

/// One node of a parsed document: the node without its children, and how
/// many children it has.
pub struct XmlItem {
    pub node: XmlNode,
    pub child_count: usize,
}

/// An element item named `name` with `attributes` and `child_count`
/// children to follow.
pub(crate) fn element_item(
    name: &str,
    attributes: Vec<(Option<&str>, &str, &str)>,
    child_count: usize,
) -> (r: XmlItem)
    ensures
        r.child_count == child_count,
        r.node matches XmlNode::Element { name: nm, attributes: at, children: ch } && nm@ == name@
            && ch@.len() == 0 && at@.len() == attributes@.len() && (forall|i: int|
            0 <= i < at@.len() ==> {
                &&& (#[trigger] at@[i]).1@ == attributes@[i].1@
                &&& at@[i].2@ == attributes@[i].2@
                &&& match (at@[i].0, attributes@[i].0) {
                    (Some(x), Some(y)) => x@ == y@,
                    (None, None) => true,
                    _ => false,
                }
            }),
{
    XmlItem { node: element_node(name, attributes, Vec::new()), child_count }
}

/// A node without children.
pub(crate) fn leaf_item(node: XmlNode) -> (r: XmlItem)
    ensures
        r.node == node,
        r.child_count == 0,
{
    XmlItem { node, child_count: 0 }
}

/// The index after the `n` trees whose items start at `i` (each item
/// followed by the items of its children).
pub open spec fn span(items: Seq<XmlItem>, i: int, n: nat) -> int
    decreases items.len() - i, n,
{
    if n == 0 || i < 0 || i >= items.len() {
        i
    } else {
        let j = span(items, i + 1, items[i].child_count as nat);
        let j2 = if j <= i {
            i + 1
        } else if j > items.len() {
            items.len() as int
        } else {
            j
        };
        span(items, j2, (n - 1) as nat)
    }
}

/// `node` is the tree whose items start at `i`: the item's node, with, for
/// an element, the trees of its children.
pub open spec fn tree_is(items: Seq<XmlItem>, i: int, node: XmlNode) -> bool
    decreases node, 1int,
{
    &&& 0 <= i < items.len()
    &&& match items[i].node {
        XmlNode::Element { name, attributes, .. } => match node {
            XmlNode::Element { name: nm, attributes: at, children: ch } => {
                &&& nm == name
                &&& at@ == attributes@
                &&& forest_is(items, i + 1, items[i].child_count as nat, ch@)
            },
            _ => false,
        },
        _ => node == items[i].node && items[i].child_count == 0,
    }
}

/// `nodes` are the `n` trees whose items start at `i`, one after another.
pub open spec fn forest_is(items: Seq<XmlItem>, i: int, n: nat, nodes: Seq<XmlNode>) -> bool
    decreases nodes, 0int,
{
    if n == 0 {
        nodes.len() == 0
    } else {
        &&& nodes.len() == n
        &&& tree_is(items, i, nodes[0])
        &&& forest_is(items, span(items, i, 1), (n - 1) as nat, nodes.drop_first())
    }
}

/// What `roxmltree::Document::parse` gives for `text`: every node of the
/// document in document order (the root first, each node before its
/// children), with how many children it has; or the text of the error it
/// reports.
pub uninterp spec fn xml_document(text: Seq<char>) -> Result<Seq<XmlItem>, Seq<char>>;

/// Parses `text` with `roxmltree::Document::parse` and lists its nodes in
/// document order (`descendants`), each with its number of children; the
/// list is one tree, the root's.
#[verifier::external_body]
fn parse_xml(text: &str) -> (r: Result<Vec<XmlItem>, String>)
    ensures
        match r {
            Ok(items) => xml_document(text@) == Ok::<Seq<XmlItem>, Seq<char>>(items@) && exists|t: XmlNode|
                tree_is(items@, 0, t),
            Err(e) => xml_document(text@) == Err::<Seq<XmlItem>, Seq<char>>(e@),
        },
{
    let doc = Document::parse(text).map_err(|e| e.to_string())?;
    Ok(doc.descendants().map(|n| match n.node_type() {
        RootNode => element_item("", Vec::new(), n.children().count()),
        ElementNode => element_item(
            n.tag_name().name(),
            n.attributes().map(|a| (a.namespace(), a.name(), a.value())).collect(),
            n.children().count(),
        ),
        TextNode => leaf_item(text_node(n.text())),
        CommentNode => leaf_item(comment_node(n.text())),
        PiNode => leaf_item(XmlNode::Other),
    }).collect())
}

proof fn lemma_span_bounds(items: Seq<XmlItem>, i: int, n: nat)
    requires
        0 <= i <= items.len(),
    ensures
        i <= span(items, i, n) <= items.len(),
    decreases items.len() - i, n,
{
    if n > 0 && i < items.len() {
        let j = span(items, i + 1, items[i].child_count as nat);
        lemma_span_bounds(items, i + 1, items[i].child_count as nat);
        lemma_span_bounds(items, j, (n - 1) as nat);
    }
}

/// A copy of the attributes of an element.
fn copy_attributes(attributes: &Vec<(Option<String>, String, String)>) -> (r: Vec<(Option<String>, String, String)>)
    ensures
        r@ == attributes@,
{
    let mut out: Vec<(Option<String>, String, String)> = Vec::new();
    let mut i: usize = 0;
    while i < attributes.len()
        invariant
            i <= attributes@.len(),
            out@ == attributes@.subrange(0, i as int),
        decreases attributes.len() - i,
    {
        let ns = match &attributes[i].0 {
            Some(x) => Some(x.clone()),
            None => None,
        };
        out.push((ns, attributes[i].1.clone(), attributes[i].2.clone()));
        assert(out@ =~= attributes@.subrange(0, i + 1));
        i += 1;
    }
    assert(attributes@.subrange(0, attributes@.len() as int) =~= attributes@);
    out
}

/// The `n` trees whose items start at `i`, and the index after them; `None`
/// when the items do not hold them.
fn build_forest(items: &Vec<XmlItem>, i: usize, n: usize) -> (r: Option<(Vec<XmlNode>, usize)>)
    requires
        i <= items@.len(),
    ensures
        match r {
            Some((nodes, j)) => forest_is(items@, i as int, n as nat, nodes@) && j == span(
                items@,
                i as int,
                n as nat,
            ),
            None => forall|nodes: Seq<XmlNode>| !forest_is(items@, i as int, n as nat, nodes),
        },
    decreases items@.len() - i, n,
{
    if n == 0 {
        return Some((Vec::new(), i));
    }
    if i >= items.len() {
        proof {
            assert forall|nodes: Seq<XmlNode>| !forest_is(items@, i as int, n as nat, nodes) by {
                if forest_is(items@, i as int, n as nat, nodes) {
                    assert(tree_is(items@, i as int, nodes[0]));
                }
            }
        }
        return None;
    }
    let item = &items[i];
    let node = match &item.node {
        XmlNode::Element { name, attributes, .. } => {
            let (kids, j) = match build_forest(items, i + 1, item.child_count) {
                Some(x) => x,
                None => {
                    proof {
                        assert forall|nodes: Seq<XmlNode>| !forest_is(items@, i as int, n as nat, nodes) by {
                            if forest_is(items@, i as int, n as nat, nodes) {
                                assert(tree_is(items@, i as int, nodes[0]));
                                match nodes[0] {
                                    XmlNode::Element { children, .. } => {
                                        assert(forest_is(
                                            items@,
                                            i + 1,
                                            items@[i as int].child_count as nat,
                                            children@,
                                        ));
                                    },
                                    _ => {},
                                }
                            }
                        }
                    }
                    return None;
                },
            };
            proof {
                lemma_span_bounds(items@, i + 1, item.child_count as nat);
            }
            (XmlNode::Element { name: name.clone(), attributes: copy_attributes(attributes), children: kids }, j)
        },
        XmlNode::Text(t) => {
            if item.child_count != 0 {
                proof {
                    assert forall|nodes: Seq<XmlNode>| !forest_is(items@, i as int, n as nat, nodes) by {
                        if forest_is(items@, i as int, n as nat, nodes) {
                            assert(tree_is(items@, i as int, nodes[0]));
                        }
                    }
                }
                return None;
            }
            (XmlNode::Text(t.clone()), i + 1)
        },
        XmlNode::Comment(t) => {
            if item.child_count != 0 {
                proof {
                    assert forall|nodes: Seq<XmlNode>| !forest_is(items@, i as int, n as nat, nodes) by {
                        if forest_is(items@, i as int, n as nat, nodes) {
                            assert(tree_is(items@, i as int, nodes[0]));
                        }
                    }
                }
                return None;
            }
            (XmlNode::Comment(t.clone()), i + 1)
        },
        XmlNode::Other => {
            if item.child_count != 0 {
                proof {
                    assert forall|nodes: Seq<XmlNode>| !forest_is(items@, i as int, n as nat, nodes) by {
                        if forest_is(items@, i as int, n as nat, nodes) {
                            assert(tree_is(items@, i as int, nodes[0]));
                        }
                    }
                }
                return None;
            }
            (XmlNode::Other, i + 1)
        },
    };
    let (tree, j) = node;
    proof {
        assert(tree_is(items@, i as int, tree));
        reveal_with_fuel(span, 2);
        if j > i + 1 {
            assert(span(items@, j as int, 0) == j);
        }
        assert(span(items@, i + 1, 0) == i + 1);
        assert(j == span(items@, i as int, 1));
    }
    match build_forest(items, j, n - 1) {
        Some((rest, k)) => {
            let mut all = rest;
            let ghost rv = all@;
            all.insert(0, tree);
            proof {
                assert(all@.drop_first() =~= rv);
                assert(all@[0] == tree);
            }
            Some((all, k))
        },
        None => {
            proof {
                assert forall|nodes: Seq<XmlNode>| !forest_is(items@, i as int, n as nat, nodes) by {
                    if forest_is(items@, i as int, n as nat, nodes) {
                        assert(forest_is(items@, j as int, (n - 1) as nat, nodes.drop_first()));
                    }
                }
            }
            None
        },
    }
}

/// The lines of a lyrics document before their begin times are rounded.
#[derive(Debug)]
pub enum TtmlLyrics {
    /// A document whose lines carry no times: its line texts joined with
    /// newlines.
    Untimed(String),
    /// The begin time and text of each synchronized line.
    Timed(Vec<(String, String)>),
}

/// The lines that a lyrics document `ttml` with the tree `root` gives:
/// the rendered texts of an untimed document (refused when it has none),
/// else the begin time and rendered text of each timed line.
pub open spec fn lyrics_outcome(
    ttml: Seq<char>,
    root: XmlNode,
    r: Result<TtmlLyrics, AppleMusicApiError>,
) -> bool {
    if contains(ttml, UNTIMED_MARK@) {
        let lines = untimed_lines(p_elements(root), TextStyle::Rendered);
        if lines.len() > 0 {
            r matches Ok(TtmlLyrics::Untimed(s)) && s@ == join(lines, "\n"@)
        } else {
            r matches Err(AppleMusicApiError::Message(m)) && m@ == "lyrics ttml did not contain any lines"@
        }
    } else {
        r matches Ok(TtmlLyrics::Timed(es)) && entries_view(es@) == timed_entries(
            p_elements(root),
            TextStyle::Rendered,
        )
    }
}

/// What a lyrics document `ttml` whose nodes are `items` gives: the lines
/// of the tree that the items form.
pub open spec fn lyrics_of_items(
    ttml: Seq<char>,
    items: Seq<XmlItem>,
    r: Result<TtmlLyrics, AppleMusicApiError>,
) -> bool {
    exists|root: XmlNode| #[trigger] tree_is(items, 0, root) && lyrics_outcome(ttml, root, r)
}

/// Parses a TTML lyrics document and picks its lines from the tree that its
/// nodes form.
pub fn ttml_lyrics(ttml: &str) -> (r: Result<TtmlLyrics, AppleMusicApiError>)
    ensures
        match xml_document(ttml@) {
            Err(m) => r matches Err(AppleMusicApiError::Xml(e)) && e@ == m,
            Ok(items) => lyrics_of_items(ttml@, items, r),
        },
{
    let items = match parse_xml(ttml) {
        Ok(v) => v,
        Err(e) => return Err(AppleMusicApiError::Xml(e)),
    };
    let built = build_forest(&items, 0, 1);
    proof {
        let t = choose|t: XmlNode| tree_is(items@, 0, t);
        let one = seq![t];
        assert(one[0] == t);
        assert(one.drop_first() =~= Seq::<XmlNode>::empty());
        assert(forest_is(items@, span(items@, 0, 1), 0, one.drop_first()));
        assert(forest_is(items@, 0, 1, one));
    }
    let (mut nodes, _) = built.unwrap();
    let root = nodes.remove(0);
    assert(tree_is(items@, 0, root));
    let r = if is_untimed_ttml(ttml) {
        match untimed_lyrics(&root, TextStyle::Rendered) {
            Ok(s) => Ok(TtmlLyrics::Untimed(s)),
            Err(e) => Err(e),
        }
    } else {
        Ok(TtmlLyrics::Timed(timed_lyrics_entries(&root, TextStyle::Rendered)))
    };
    assert(lyrics_outcome(ttml@, root, r));
    assert(xml_document(ttml@) == Ok::<Seq<XmlItem>, Seq<char>>(items@));
    assert(lyrics_of_items(ttml@, items@, r));
    r
}

/// The view of a list of string pairs.
pub open spec fn entries_view(v: Seq<(String, String)>) -> Seq<(Seq<char>, Seq<char>)> {
    v.map_values(|p: (String, String)| (p.0@, p.1@))
}

/// The begin time and text of each synchronized line of a document.
pub fn timed_lyrics_entries(root: &XmlNode, style: TextStyle) -> (r: Vec<(String, String)>)
    ensures
        entries_view(r@) == timed_entries(p_elements(*root), style),
{
    let mut ps: Vec<&XmlNode> = Vec::new();
    collect_p(root, &mut ps);
    assert(refs_view(ps@) =~= p_elements(*root));
    let ghost pv = refs_view(ps@);
    let mut out: Vec<(String, String)> = Vec::new();
    let mut i: usize = 0;
    while i < ps.len()
        invariant
            i <= ps@.len(),
            pv == refs_view(ps@),
            entries_view(out@) == timed_entries(pv.subrange(0, i as int), style),
        decreases ps.len() - i,
    {
        let ghost next = pv.subrange(0, i + 1);
        proof {
            assert(next.drop_last() =~= pv.subrange(0, i as int));
            assert(next.last() == *ps@[i as int]);
        }
        let p = ps[i];
        match attribute_value(p, "begin") {
            None => {},
            Some(begin) => {
                let from_attribute: Option<Vec<char>> = match attribute_value(p, "text") {
                    Some(t) => {
                        let tv = str_chars(t.as_str());
                        let tt = trim_chars(&tv);
                        if tt.len() > 0 {
                            Some(tt)
                        } else {
                            None
                        }
                    },
                    None => None,
                };
                let text = match from_attribute {
                    Some(t) => t,
                    None => line_text_chars(p, style),
                };
                assert(text@ == timed_text(*p, style));
                if text.len() > 0 {
                    let ghost before = entries_view(out@);
                    let entry = (begin, chars_to_string(&text));
                    out.push(entry);
                    assert(entries_view(out@) =~= before.push((entry.0@, entry.1@)));
                }
            },
        }
        i += 1;
    }
    assert(pv.subrange(0, pv.len() as int) =~= pv);
    out
}

/// The synchronized lines, joined with newlines; a document without any is
/// refused.
pub fn synchronized_lyrics(lines: Vec<String>) -> (r: Result<String, AppleMusicApiError>)
    ensures
        lines@.len() > 0 ==> (r matches Ok(s) && s@ == join(
            lines@.map_values(|l: String| l@),
            "\n"@,
        )),
        lines@.len() == 0 ==> (r matches Err(AppleMusicApiError::Message(m)) && m@
            == "lyrics ttml did not contain any synchronized lines"@),
{
    if lines.len() == 0 {
        return Err(
            AppleMusicApiError::Message("lyrics ttml did not contain any synchronized lines".to_string()),
        );
    }
    let mut vs: Vec<Vec<char>> = Vec::new();
    let mut i: usize = 0;
    while i < lines.len()
        invariant
            i <= lines@.len(),
            fields_view(vs@) == lines@.subrange(0, i as int).map_values(|l: String| l@),
        decreases lines.len() - i,
    {
        let v = str_chars(lines[i].as_str());
        let ghost before = fields_view(vs@);
        vs.push(v);
        assert(fields_view(vs@) =~= before.push(v@));
        assert(lines@.subrange(0, i + 1).map_values(|l: String| l@) =~= lines@.subrange(
            0,
            i as int,
        ).map_values(|l: String| l@).push(lines@[i as int]@));
        i += 1;
    }
    assert(lines@.subrange(0, lines@.len() as int) =~= lines@);
    Ok(chars_to_string(&join_newlines(&vs)))
}

// ---------------------------------------------------------------------------
// Begin times
// ---------------------------------------------------------------------------

/// A begin time without surrounding whitespace and one trailing `s`.
pub open spec fn time_text(value: Seq<char>) -> Seq<char> {
    let t = trim(value);
    if t.len() > 0 && t.last() == 's' {
        t.drop_last()
    } else {
        t
    }
}

/// The hours, minutes and seconds text of a begin time (`h:m:s`, `m:s` or
/// `s`); the error message otherwise.
pub open spec fn time_parts(value: Seq<char>) -> Result<(u32, u32, Seq<char>), Seq<char>> {
    let v = time_text(value);
    let parts = split_on(v, ':');
    if parts.len() == 3 {
        match parse_unsigned(parts[0], u32::MAX as nat) {
            Err(k) => Err("invalid TTML hour: "@ + int_error_message(k)),
            Ok(h) => match parse_unsigned(parts[1], u32::MAX as nat) {
                Err(k) => Err("invalid TTML minute: "@ + int_error_message(k)),
                Ok(m) => Ok((h as u32, m as u32, parts[2])),
            },
        }
    } else if parts.len() == 2 {
        match parse_unsigned(parts[0], u32::MAX as nat) {
            Err(k) => Err("invalid TTML minute: "@ + int_error_message(k)),
            Ok(m) => Ok((0u32, m as u32, parts[1])),
        }
    } else if parts.len() == 1 {
        Ok((0u32, 0u32, parts[0]))
    } else {
        Err("unsupported TTML timestamp format: "@ + v)
    }
}

fn parse_u32_field(field: &Vec<char>, what: &str) -> (r: Result<u32, AppleMusicApiError>)
    ensures
        match parse_unsigned(field@, u32::MAX as nat) {
            Ok(n) => r == Ok::<u32, AppleMusicApiError>(n as u32),
            Err(k) => r matches Err(AppleMusicApiError::Protocol(m)) && m@ == what@ + int_error_message(k),
        },
{
    match parse_unsigned_chars(field, u32::MAX as u64) {
        Ok(n) => Ok(n as u32),
        Err(k) => {
            let mut m: Vec<char> = Vec::new();
            push_str(&mut m, what);
            push_str(&mut m, k.message());
            Err(AppleMusicApiError::Protocol(chars_to_string(&m)))
        },
    }
}

/// Reads the hours, minutes and seconds text of a TTML begin time.
pub fn split_ttml_timestamp(value: &str) -> (r: Result<(u32, u32, String), AppleMusicApiError>)
    ensures
        match time_parts(value@) {
            Ok((h, m, s)) => r matches Ok((a, b, c)) && a == h && b == m && c@ == s,
            Err(msg) => r matches Err(AppleMusicApiError::Protocol(e)) && e@ == msg,
        },
{
    let v = str_chars(value);
    let t = trim_chars(&v);
    let text = if t.len() > 0 && t[t.len() - 1] == 's' {
        chars_range(&t, 0, t.len() - 1)
    } else {
        t
    };
    proof {
        if trim(value@).len() > 0 && trim(value@).last() == 's' {
            assert(text@ =~= trim(value@).drop_last());
        }
    }
    let parts = split_chars(&text, ':');
    proof {
        assert(fields_view(parts@).len() == parts@.len());
    }
    if parts.len() == 3 {
        let h = parse_u32_field(&parts[0], "invalid TTML hour: ")?;
        let m = parse_u32_field(&parts[1], "invalid TTML minute: ")?;
        Ok((h, m, chars_to_string(&parts[2])))
    } else if parts.len() == 2 {
        let m = parse_u32_field(&parts[0], "invalid TTML minute: ")?;
        Ok((0, m, chars_to_string(&parts[1])))
    } else if parts.len() == 1 {
        Ok((0, 0, chars_to_string(&parts[0])))
    } else {
        let mut msg: Vec<char> = Vec::new();
        push_str(&mut msg, "unsupported TTML timestamp format: ");
        push_all(&mut msg, &text);
        Err(AppleMusicApiError::Protocol(chars_to_string(&msg)))
    }
}

/// The minutes, seconds and centiseconds of a time in whole centiseconds.
pub fn lrc_clock(centiseconds: u32) -> (r: (u32, u32, u32))
    ensures
        r == (centiseconds / 100 / 60, centiseconds / 100 % 60, centiseconds % 100),
{
    let total_seconds = centiseconds / 100;
    (total_seconds / 60, total_seconds % 60, centiseconds % 100)
}

} // verus!
