//! The document tree, the segment accumulator, and the flattening walk that
//! turns a tree into an ordered sequence of text segments.

use vstd::prelude::*;
use crate::text::{norm_ws, trim_spec, lower_ascii, normalize_ws, trim_chars, to_lower,
    chars_to_string};
use crate::width::{width_of, display_width};

verus! {

/// One node of a parsed HTML document, as the flattener reads it: only the
/// node kind, the tag name and the ordered children matter here.
pub enum DomNode {
    Document { children: Vec<DomNode> },
    Doctype,
    Comment,
    Text { contents: String },
    Element { name: String, children: Vec<DomNode> },
}

/// One finished segment: a maximal run of visible text between block-level
/// boundaries, with the accumulated half-unit widths of its anchored and
/// plain text.
pub struct Paragraph {
    pub text: String,
    pub anchor_len2: usize,
    pub normal_len2: usize,
}

/// The mathematical content of a segment or of the accumulator in progress.
#[verifier::ext_equal]
pub struct SegModel {
    pub text: Seq<char>,
    pub anchor2: int,
    pub normal2: int,
}

impl View for Paragraph {
    type V = SegModel;

    open spec fn view(&self) -> SegModel {
        SegModel {
            text: self.text@,
            anchor2: self.anchor_len2 as int,
            normal2: self.normal_len2 as int,
        }
    }
}

/// The models of a sequence of segments.
pub open spec fn views(s: Seq<Paragraph>) -> Seq<SegModel> {
    s.map_values(|p: Paragraph| p@)
}

/// The in-progress segment: a text buffer plus the half-unit width counters
/// for anchored and plain text.
pub struct Accum {
    pub text: Vec<char>,
    pub anchor_len2: usize,
    pub normal_len2: usize,
}

impl View for Accum {
    type V = SegModel;

    open spec fn view(&self) -> SegModel {
        SegModel {
            text: self.text@,
            anchor2: self.anchor_len2 as int,
            normal2: self.normal_len2 as int,
        }
    }
}

/// The cleared accumulator.
pub open spec fn empty_buf() -> SegModel {
    SegModel { text: Seq::empty(), anchor2: 0, normal2: 0 }
}

/// Elements whose content is never visible: nothing below them is walked.
pub open spec fn is_ignore_tag(s: Seq<char>) -> bool {
    ||| s == "area"@
    ||| s == "base"@
    ||| s == "datalist"@
    ||| s == "head"@
    ||| s == "link"@
    ||| s == "meta"@
    ||| s == "noscript"@
    ||| s == "param"@
    ||| s == "script"@
    ||| s == "style"@
    ||| s == "title"@
}

/// Elements that force a paragraph boundary before and after their content.
pub open spec fn is_block_tag(s: Seq<char>) -> bool {
    ||| s == "address"@
    ||| s == "article"@
    ||| s == "aside"@
    ||| s == "blockquote"@
    ||| s == "body"@
    ||| s == "caption"@
    ||| s == "colgroup"@
    ||| s == "dd"@
    ||| s == "details"@
    ||| s == "div"@
    ||| s == "dl"@
    ||| s == "dt"@
    ||| s == "fieldset"@
    ||| s == "figcaption"@
    ||| s == "figure"@
    ||| s == "footer"@
    ||| s == "form"@
    ||| s == "h1"@
    ||| s == "h2"@
    ||| s == "h3"@
    ||| s == "h4"@
    ||| s == "h5"@
    ||| s == "h6"@
    ||| s == "header"@
    ||| s == "hr"@
    ||| s == "html"@
    ||| s == "iframe"@
    ||| s == "legend"@
    ||| s == "li"@
    ||| s == "menu"@
    ||| s == "nav"@
    ||| s == "ol"@
    ||| s == "p"@
    ||| s == "pre"@
    ||| s == "section"@
    ||| s == "summary"@
    ||| s == "table"@
    ||| s == "tbody"@
    ||| s == "tfoot"@
    ||| s == "thead"@
    ||| s == "tr"@
    ||| s == "ul"@
}

/// The effect of appending one raw text run to the accumulator: whitespace
/// is collapsed, a duplicated boundary space is dropped, and the doubled
/// display width goes to the anchored or the plain counter. When a boundary
/// space was dropped, one half-unit is subtracted in compensation.
pub open spec fn append_model(b: SegModel, raw: Seq<char>, anchored: bool) -> SegModel {
    let t = norm_ws(raw);
    let merge = b.text.len() > 0 && b.text.last() == ' ' && t.len() > 0 && t.first() == ' ';
    let added: Seq<char> = if merge {
        t.drop_first()
    } else {
        t
    };
    let w2: int = if merge {
        if width_of(t) > 0 {
            2 * (width_of(t) as int) - 1
        } else {
            0
        }
    } else {
        2 * (width_of(t) as int)
    };
    SegModel {
        text: b.text + added,
        anchor2: b.anchor2 + if anchored {
            w2
        } else {
            0
        },
        normal2: b.normal2 + if anchored {
            0
        } else {
            w2
        },
    }
}

/// The effect of a block boundary: the trimmed buffer text becomes a segment
/// if it is non-empty, and the accumulator is cleared either way.
pub open spec fn emit_model(b: SegModel) -> (Seq<SegModel>, SegModel) {
    let t = trim_spec(b.text);
    let out: Seq<SegModel> = if t.len() > 0 {
        seq![SegModel { text: t, anchor2: b.anchor2, normal2: b.normal2 }]
    } else {
        Seq::empty()
    };
    (out, empty_buf())
}

/// The walk of one node: the segments it emits and the accumulator it
/// leaves behind.
pub open spec fn walk_node(n: DomNode, anchored: bool, b: SegModel) -> (Seq<SegModel>, SegModel)
    decreases n,
{
    match n {
        DomNode::Doctype => (Seq::empty(), b),
        DomNode::Comment => (Seq::empty(), b),
        DomNode::Document { children } => walk_seq(children@, anchored, b),
        DomNode::Text { contents } => (Seq::empty(), append_model(b, contents@, anchored)),
        DomNode::Element { name, children } => {
            let tag = lower_ascii(name@);
            if is_ignore_tag(tag) {
                (Seq::empty(), b)
            } else if is_block_tag(tag) {
                let r0 = emit_model(b);
                let r1 = walk_seq(children@, anchored, r0.1);
                let r2 = emit_model(r1.1);
                (r0.0 + r1.0 + r2.0, r2.1)
            } else {
                walk_seq(children@, anchored || tag == "a"@, b)
            }
        },
    }
}

/// The walk of a forest of siblings, left to right.
pub open spec fn walk_seq(cs: Seq<DomNode>, anchored: bool, b: SegModel) -> (
    Seq<SegModel>,
    SegModel,
)
    decreases cs,
{
    if cs.len() == 0 {
        (Seq::empty(), b)
    } else {
        let r1 = walk_seq(cs.drop_last(), anchored, b);
        let r2 = walk_node(cs.last(), anchored, r1.1);
        (r1.0 + r2.0, r2.1)
    }
}

/// The whole flattening: the walk from the root with the anchored flag off,
/// followed by one final boundary that flushes trailing text.
pub open spec fn flatten_model(root: DomNode) -> Seq<SegModel> {
    let r = walk_node(root, false, empty_buf());
    let r2 = emit_model(r.1);
    r.0 + r2.0
}

/// The number of raw text characters below a node, counting every text node.
/// Six times this number bounds every half-unit width the walk can add.
pub open spec fn text_budget(n: DomNode) -> int
    decreases n,
{
    match n {
        DomNode::Doctype => 0,
        DomNode::Comment => 0,
        DomNode::Document { children } => budget_seq(children@),
        DomNode::Text { contents } => contents@.len() as int,
        DomNode::Element { name, children } => budget_seq(children@),
    }
}

pub open spec fn budget_seq(cs: Seq<DomNode>) -> int
    decreases cs,
{
    if cs.len() == 0 {
        0
    } else {
        budget_seq(cs.drop_last()) + text_budget(cs.last())
    }
}

pub proof fn lemma_budget_nonneg(n: DomNode)
    ensures
        text_budget(n) >= 0,
    decreases n,
{
    match n {
        DomNode::Document { children } => lemma_budget_seq_nonneg(children@),
        DomNode::Element { name, children } => lemma_budget_seq_nonneg(children@),
        _ => {},
    }
}

pub proof fn lemma_budget_seq_nonneg(cs: Seq<DomNode>)
    ensures
        budget_seq(cs) >= 0,
    decreases cs,
{
    if cs.len() > 0 {
        lemma_budget_seq_nonneg(cs.drop_last());
        lemma_budget_nonneg(cs.last());
    }
}

/// The budget of a prefix never exceeds the budget of the whole forest.
pub proof fn lemma_budget_take_le(cs: Seq<DomNode>, i: int)
    requires
        0 <= i <= cs.len(),
    ensures
        budget_seq(cs.take(i)) <= budget_seq(cs),
    decreases cs.len() - i,
{
    if i == cs.len() {
        assert(cs.take(i) =~= cs);
    } else {
        assert(cs.take(i + 1).drop_last() =~= cs.take(i));
        assert(cs.take(i + 1).last() == cs[i]);
        lemma_budget_nonneg(cs[i]);
        lemma_budget_take_le(cs, i + 1);
    }
}

/// Character-wise comparison of a tag name with a literal.
fn chars_eq_str(a: &Vec<char>, b: &str) -> (r: bool)
    ensures
        r == (a@ == b@),
{
    let n = b.unicode_len();
    if a.len() != n {
        return false;
    }
    let mut i: usize = 0;
    while i < n
        invariant
            n == b@.len(),
            a@.len() == n,
            0 <= i <= n,
            forall|j: int| 0 <= j < i ==> a@[j] == b@[j],
        decreases n - i,
    {
        if a[i] != b.get_char(i) {
            return false;
        }
        i = i + 1;
    }
    proof {
        assert(a@ =~= b@);
    }
    true
}

fn is_ignore_exec(tag: &Vec<char>) -> (r: bool)
    ensures
        r == is_ignore_tag(tag@),
{
    chars_eq_str(tag, "area") || chars_eq_str(tag, "base") || chars_eq_str(tag, "datalist")
        || chars_eq_str(tag, "head") || chars_eq_str(tag, "link") || chars_eq_str(tag, "meta")
        || chars_eq_str(tag, "noscript") || chars_eq_str(tag, "param") || chars_eq_str(
        tag,
        "script",
    ) || chars_eq_str(tag, "style") || chars_eq_str(tag, "title")
}

fn is_block_exec(tag: &Vec<char>) -> (r: bool)
    ensures
        r == is_block_tag(tag@),
{
    chars_eq_str(tag, "address") || chars_eq_str(tag, "article") || chars_eq_str(tag, "aside")
        || chars_eq_str(tag, "blockquote") || chars_eq_str(tag, "body") || chars_eq_str(
        tag,
        "caption",
    ) || chars_eq_str(tag, "colgroup") || chars_eq_str(tag, "dd") || chars_eq_str(tag, "details")
        || chars_eq_str(tag, "div") || chars_eq_str(tag, "dl") || chars_eq_str(tag, "dt")
        || chars_eq_str(tag, "fieldset") || chars_eq_str(tag, "figcaption") || chars_eq_str(
        tag,
        "figure",
    ) || chars_eq_str(tag, "footer") || chars_eq_str(tag, "form") || chars_eq_str(tag, "h1")
        || chars_eq_str(tag, "h2") || chars_eq_str(tag, "h3") || chars_eq_str(tag, "h4")
        || chars_eq_str(tag, "h5") || chars_eq_str(tag, "h6") || chars_eq_str(tag, "header")
        || chars_eq_str(tag, "hr") || chars_eq_str(tag, "html") || chars_eq_str(tag, "iframe")
        || chars_eq_str(tag, "legend") || chars_eq_str(tag, "li") || chars_eq_str(tag, "menu")
        || chars_eq_str(tag, "nav") || chars_eq_str(tag, "ol") || chars_eq_str(tag, "p")
        || chars_eq_str(tag, "pre") || chars_eq_str(tag, "section") || chars_eq_str(tag, "summary")
        || chars_eq_str(tag, "table") || chars_eq_str(tag, "tbody") || chars_eq_str(tag, "tfoot")
        || chars_eq_str(tag, "thead") || chars_eq_str(tag, "tr") || chars_eq_str(tag, "ul")
}

impl Accum {
    /// A fresh, empty accumulator.
    pub fn new() -> (r: Accum)
        ensures
            r@ == empty_buf(),
    {
        let r = Accum { text: Vec::new(), anchor_len2: 0, normal_len2: 0 };
        proof {
            assert(r@ =~= empty_buf());
        }
        r
    }

    /// Append one raw text run under the given anchor context.
    pub fn append(&mut self, raw: &str, anchored: bool)
        requires
            old(self)@.anchor2 + old(self)@.normal2 + 6 * raw@.len() <= usize::MAX,
        ensures
            final(self)@ == append_model(old(self)@, raw@, anchored),
            final(self)@.anchor2 + final(self)@.normal2 <= old(self)@.anchor2 + old(
                self,
            )@.normal2 + 6 * raw@.len(),
    {
        let nt = normalize_ws(raw);
        let s = chars_to_string(&nt);
        let w = display_width(&s);
        let merge: bool = self.text.len() > 0 && self.text[self.text.len() - 1] == ' '
            && nt.len() > 0 && nt[0] == ' ';
        proof {
            assert(merge == ({
                let t = norm_ws(raw@);
                self@.text.len() > 0 && self@.text.last() == ' ' && t.len() > 0 && t.first()
                    == ' '
            }));
        }
        let two_w: usize = 2 * w;
        let len2: usize = if merge {
            if two_w > 0 {
                two_w - 1
            } else {
                0
            }
        } else {
            two_w
        };
        let ghost text0 = self@.text;
        let start: usize = if merge {
            1
        } else {
            0
        };
        let mut k: usize = start;
        while k < nt.len()
            invariant
                start <= k <= nt@.len(),
                self.text@ == text0 + nt@.subrange(start as int, k as int),
                self.anchor_len2 == old(self).anchor_len2,
                self.normal_len2 == old(self).normal_len2,
            decreases nt@.len() - k,
        {
            self.text.push(nt[k]);
            proof {
                assert(self.text@ =~= text0 + nt@.subrange(start as int, k + 1));
            }
            k = k + 1;
        }
        if anchored {
            self.anchor_len2 = self.anchor_len2 + len2;
        } else {
            self.normal_len2 = self.normal_len2 + len2;
        }
        proof {
            let t = norm_ws(raw@);
            if merge {
                assert(nt@.subrange(1, nt@.len() as int) =~= t.drop_first());
            } else {
                assert(nt@.subrange(0, nt@.len() as int) =~= t);
            }
            assert(self@ =~= append_model(old(self)@, raw@, anchored));
        }
    }

    /// Close the current segment: push the trimmed text as a `Paragraph` if
    /// it is non-empty, then clear the accumulator.
    pub fn emit_if_nonempty(&mut self, dst: &mut Vec<Paragraph>)
        ensures
            ({
                let r = emit_model(old(self)@);
                views(final(dst)@) == views(old(dst)@) + r.0 && final(self)@ == r.1
            }),
    {
        let t = trim_chars(&self.text);
        if t.len() > 0 {
            let p = Paragraph {
                text: chars_to_string(&t),
                anchor_len2: self.anchor_len2,
                normal_len2: self.normal_len2,
            };
            proof {
                assert(p@ == emit_model(old(self)@).0[0]);
            }
            dst.push(p);
            proof {
                assert(views(dst@) =~= views(old(dst)@) + emit_model(old(self)@).0);
            }
        } else {
            proof {
                assert(views(dst@) =~= views(old(dst)@) + emit_model(old(self)@).0);
            }
        }
        self.text = Vec::new();
        self.anchor_len2 = 0;
        self.normal_len2 = 0;
        proof {
            assert(self@ =~= empty_buf());
        }
    }
}

/// Walk every child of a node in order, sharing one accumulator and one
/// output list.
fn flatten_children(children: &Vec<DomNode>, is_anchored: bool, buf: &mut Accum, dst: &mut Vec<
    Paragraph,
>)
    requires
        old(buf)@.anchor2 + old(buf)@.normal2 + 6 * budget_seq(children@) <= usize::MAX,
    ensures
        ({
            let r = walk_seq(children@, is_anchored, old(buf)@);
            &&& views(final(dst)@) == views(old(dst)@) + r.0
            &&& final(buf)@ == r.1
            &&& r.1.anchor2 + r.1.normal2 <= old(buf)@.anchor2 + old(buf)@.normal2 + 6
                * budget_seq(children@)
            &&& r.1.anchor2 >= 0
            &&& r.1.normal2 >= 0
        }),
    decreases *children,
{
    let ghost b0 = buf@;
    let ghost dst0 = dst@;
    let mut i: usize = 0;
    proof {
        assert(children@.take(0) =~= Seq::<DomNode>::empty());
    }
    while i < children.len()
        invariant
            0 <= i <= children@.len(),
            b0.anchor2 + b0.normal2 + 6 * budget_seq(children@) <= usize::MAX,
            b0.anchor2 >= 0,
            b0.normal2 >= 0,
            ({
                let r = walk_seq(children@.take(i as int), is_anchored, b0);
                &&& views(dst@) == views(dst0) + r.0
                &&& buf@ == r.1
                &&& buf@.anchor2 + buf@.normal2 <= b0.anchor2 + b0.normal2 + 6 * budget_seq(
                    children@.take(i as int),
                )
                &&& buf@.anchor2 >= 0
                &&& buf@.normal2 >= 0
            }),
        decreases children@.len() - i,
    {
        proof {
            assert(children@.take(i + 1).drop_last() =~= children@.take(i as int));
            assert(children@.take(i + 1).last() == children@[i as int]);
            lemma_budget_take_le(children@, i + 1);
            lemma_budget_seq_nonneg(children@.take(i as int));
            lemma_budget_nonneg(children@[i as int]);
        }
        let ghost before = buf@;
        let ghost dst_before = dst@;
        flatten_dom_inner(&children[i], is_anchored, buf, dst);
        proof {
            let r_prev = walk_seq(children@.take(i as int), is_anchored, b0);
            let r_step = walk_node(children@[i as int], is_anchored, before);
            assert(views(dst@) =~= views(dst0) + (r_prev.0 + r_step.0));
        }
        i = i + 1;
    }
    proof {
        assert(children@.take(children@.len() as int) =~= children@);
    }
}

/// The recursive flattening walk over one node.
pub fn flatten_dom_inner(node: &DomNode, is_anchored: bool, buf: &mut Accum, dst: &mut Vec<
    Paragraph,
>)
    requires
        old(buf)@.anchor2 + old(buf)@.normal2 + 6 * text_budget(*node) <= usize::MAX,
    ensures
        ({
            let r = walk_node(*node, is_anchored, old(buf)@);
            &&& views(final(dst)@) == views(old(dst)@) + r.0
            &&& final(buf)@ == r.1
            &&& r.1.anchor2 + r.1.normal2 <= old(buf)@.anchor2 + old(buf)@.normal2 + 6
                * text_budget(*node)
            &&& r.1.anchor2 >= 0
            &&& r.1.normal2 >= 0
        }),
    decreases *node,
{
    match node {
        DomNode::Doctype => {
            proof {
                assert(views(dst@) =~= views(old(dst)@) + Seq::<SegModel>::empty());
            }
        },
        DomNode::Comment => {
            proof {
                assert(views(dst@) =~= views(old(dst)@) + Seq::<SegModel>::empty());
            }
        },
        DomNode::Document { children } => {
            flatten_children(children, is_anchored, buf, dst);
            proof {
            }
        },
        DomNode::Text { contents } => {
            buf.append(contents.as_str(), is_anchored);
            proof {
                assert(views(dst@) =~= views(old(dst)@) + Seq::<SegModel>::empty());
            }
        },
        DomNode::Element { name, children } => {
            let tag = to_lower(name);
            if is_ignore_exec(&tag) {
                proof {
                    lemma_budget_seq_nonneg(children@);
                    assert(views(dst@) =~= views(old(dst)@) + Seq::<SegModel>::empty());
                }
            } else if is_block_exec(&tag) {
                buf.emit_if_nonempty(dst);
                let ghost d1 = dst@;
                flatten_children(children, is_anchored, buf, dst);
                let ghost d2 = dst@;
                buf.emit_if_nonempty(dst);
                proof {
                    lemma_budget_seq_nonneg(children@);
                    let r0 = emit_model(old(buf)@);
                    let r1 = walk_seq(children@, is_anchored, r0.1);
                    let r2 = emit_model(r1.1);
                    assert(views(dst@) =~= views(old(dst)@) + (r0.0 + r1.0 + r2.0));
                    }
            } else {
                let sub_anchored = is_anchored || chars_eq_str(&tag, "a");
                flatten_children(children, sub_anchored, buf, dst);
                proof {
                    }
            }
        },
    }
}

/// Flatten a parsed document tree into its ordered sequence of segments.
///
/// Every segment holds the whitespace-normalized, trimmed visible text of one
/// block-level run, with the half-unit display widths of its hyperlinked and
/// plain parts. The bound in the requires keeps every width counter within
/// machine range.
pub fn flatten_dom(root: &DomNode) -> (dst: Vec<Paragraph>)
    requires
        6 * text_budget(*root) <= usize::MAX,
    ensures
        views(dst@) == flatten_model(*root),
{
    proof {
        lemma_budget_nonneg(*root);
    }
    let mut buf = Accum::new();
    let mut dst: Vec<Paragraph> = Vec::new();
    flatten_dom_inner(root, false, &mut buf, &mut dst);
    buf.emit_if_nonempty(&mut dst);
    proof {
        assert(views(dst@) =~= flatten_model(*root));
    }
    dst
}

} // verus!
