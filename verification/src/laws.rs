//! Laws of the flattening walk: what holds of every tree, not just of the
//! trees the tests build.

use vstd::prelude::*;
use crate::dom::{DomNode, SegModel, walk_node, walk_seq, emit_model, flatten_model,
    is_ignore_tag};
use crate::text::{trim_spec, lower_ascii, lemma_trim_of_trimmed};

verus! {

/// A segment as the walk is allowed to emit it: its text is non-empty and
/// carries no surrounding whitespace.
pub open spec fn seg_wf(m: SegModel) -> bool {
    m.text.len() > 0 && trim_spec(m.text) == m.text
}

proof fn lemma_emit_segments_wf(b: SegModel)
    ensures
        forall|k: int|
            0 <= k < emit_model(b).0.len() ==> seg_wf(#[trigger] emit_model(b).0[k]),
{
    let out = emit_model(b).0;
    if out.len() > 0 {
        lemma_trim_of_trimmed(b.text);
        assert(seg_wf(out[0]));
    }
}

proof fn lemma_walk_node_segments_wf(n: DomNode, anchored: bool, b: SegModel)
    ensures
        forall|k: int|
            0 <= k < walk_node(n, anchored, b).0.len() ==> seg_wf(
                #[trigger] walk_node(n, anchored, b).0[k],
            ),
    decreases n,
{
    match n {
        DomNode::Document { children } => {
            lemma_walk_seq_segments_wf(children@, anchored, b);
            assert(walk_node(n, anchored, b).0 == walk_seq(children@, anchored, b).0);
        },
        DomNode::Element { name, children } => {
            let tag = lower_ascii(name@);
            if is_ignore_tag(tag) {
            } else if crate::dom::is_block_tag(tag) {
                let r0 = emit_model(b);
                let r1 = walk_seq(children@, anchored, r0.1);
                let r2 = emit_model(r1.1);
                lemma_emit_segments_wf(b);
                lemma_walk_seq_segments_wf(children@, anchored, r0.1);
                lemma_emit_segments_wf(r1.1);
                assert forall|k: int|
                    0 <= k < walk_node(n, anchored, b).0.len() implies seg_wf(
                    #[trigger] walk_node(n, anchored, b).0[k],
                ) by {
                    let whole = r0.0 + r1.0 + r2.0;
                    assert(walk_node(n, anchored, b).0 == whole);
                    if k < r0.0.len() {
                        assert(whole[k] == r0.0[k]);
                    } else if k < r0.0.len() + r1.0.len() {
                        assert(whole[k] == r1.0[k - r0.0.len()]);
                    } else {
                        assert(whole[k] == r2.0[k - r0.0.len() - r1.0.len()]);
                    }
                }
            } else {
                lemma_walk_seq_segments_wf(children@, anchored || tag == "a"@, b);
                assert(walk_node(n, anchored, b).0 == walk_seq(
                    children@,
                    anchored || tag == "a"@,
                    b,
                ).0);
            }
        },
        _ => {},
    }
}

proof fn lemma_walk_seq_segments_wf(cs: Seq<DomNode>, anchored: bool, b: SegModel)
    ensures
        forall|k: int|
            0 <= k < walk_seq(cs, anchored, b).0.len() ==> seg_wf(
                #[trigger] walk_seq(cs, anchored, b).0[k],
            ),
    decreases cs,
{
    if cs.len() > 0 {
        let r1 = walk_seq(cs.drop_last(), anchored, b);
        let r2 = walk_node(cs.last(), anchored, r1.1);
        lemma_walk_seq_segments_wf(cs.drop_last(), anchored, b);
        lemma_walk_node_segments_wf(cs.last(), anchored, r1.1);
        assert forall|k: int|
            0 <= k < walk_seq(cs, anchored, b).0.len() implies seg_wf(
            #[trigger] walk_seq(cs, anchored, b).0[k],
        ) by {
            assert(walk_seq(cs, anchored, b).0 == r1.0 + r2.0);
            if k < r1.0.len() {
                assert((r1.0 + r2.0)[k] == r1.0[k]);
            } else {
                assert((r1.0 + r2.0)[k] == r2.0[k - r1.0.len()]);
            }
        }
    }
}

/// Every segment that flattening emits has non-empty text with no
/// surrounding whitespace: no blank segment is ever emitted, for any tree.
pub proof fn lemma_flatten_segments_nonblank(root: DomNode)
    ensures
        forall|k: int|
            0 <= k < flatten_model(root).len() ==> seg_wf(#[trigger] flatten_model(root)[k]),
{
    let r = walk_node(root, false, crate::dom::empty_buf());
    let r2 = emit_model(r.1);
    lemma_walk_node_segments_wf(root, false, crate::dom::empty_buf());
    lemma_emit_segments_wf(r.1);
    assert forall|k: int|
        0 <= k < flatten_model(root).len() implies seg_wf(#[trigger] flatten_model(root)[k]) by {
        assert(flatten_model(root) == r.0 + r2.0);
        if k < r.0.len() {
            assert((r.0 + r2.0)[k] == r.0[k]);
        } else {
            assert((r.0 + r2.0)[k] == r2.0[k - r.0.len()]);
        }
    }
}

/// The walk of two sibling forests, one after the other: the left forest's
/// segments come first, then the right forest's, computed from the
/// accumulator the left forest leaves behind. Flattening is therefore
/// order-preserving: segments appear in left-to-right document order.
pub proof fn lemma_walk_seq_concat(cs1: Seq<DomNode>, cs2: Seq<DomNode>, anchored: bool, b: SegModel)
    ensures
        walk_seq(cs1 + cs2, anchored, b).0 == walk_seq(cs1, anchored, b).0 + walk_seq(
            cs2,
            anchored,
            walk_seq(cs1, anchored, b).1,
        ).0,
        walk_seq(cs1 + cs2, anchored, b).1 == walk_seq(
            cs2,
            anchored,
            walk_seq(cs1, anchored, b).1,
        ).1,
    decreases cs2.len(),
{
    let r1 = walk_seq(cs1, anchored, b);
    if cs2.len() == 0 {
        assert(cs1 + cs2 =~= cs1);
        assert(r1.0 + walk_seq(cs2, anchored, r1.1).0 =~= r1.0);
    } else {
        lemma_walk_seq_concat(cs1, cs2.drop_last(), anchored, b);
        assert((cs1 + cs2).drop_last() =~= cs1 + cs2.drop_last());
        assert((cs1 + cs2).last() == cs2.last());
        let rm = walk_seq(cs2.drop_last(), anchored, r1.1);
        let rl = walk_node(cs2.last(), anchored, rm.1);
        assert(walk_seq(cs1 + cs2, anchored, b).0 == (r1.0 + rm.0) + rl.0);
        assert((r1.0 + rm.0) + rl.0 =~= r1.0 + (rm.0 + rl.0));
    }
}

/// The plain (non-hyperlink) width that a sequence of segments carries.
pub open spec fn sum_normal(segs: Seq<SegModel>) -> int
    decreases segs.len(),
{
    if segs.len() == 0 {
        0
    } else {
        sum_normal(segs.drop_last()) + segs.last().normal2
    }
}

/// The segments of one boundary emission carry exactly the buffer's plain
/// width, or nothing when the trimmed text was empty.
proof fn lemma_sum_normal_emit(b: SegModel)
    ensures
        emit_model(b).0.len() > 0 ==> sum_normal(emit_model(b).0) == b.normal2,
        emit_model(b).0.len() == 0 ==> sum_normal(emit_model(b).0) == 0,
{
    let out = emit_model(b).0;
    if out.len() > 0 {
        assert(out.drop_last() =~= Seq::<SegModel>::empty());
        assert(sum_normal(Seq::<SegModel>::empty()) == 0);
        assert(sum_normal(out) == sum_normal(out.drop_last()) + out.last().normal2);
        assert(out.last().normal2 == b.normal2);
    }
}

proof fn lemma_anchored_walk_seq(cs: Seq<DomNode>, b: SegModel)
    requires
        b.normal2 >= 0,
    ensures
        ({
            let r = walk_seq(cs, true, b);
            &&& 0 <= sum_normal(r.0) + r.1.normal2 <= b.normal2
            &&& r.1.normal2 >= 0
            &&& sum_normal(r.0) >= 0
        }),
    decreases cs,
{
    if cs.len() > 0 {
        let r1 = walk_seq(cs.drop_last(), true, b);
        let r2 = walk_node(cs.last(), true, r1.1);
        lemma_anchored_walk_seq(cs.drop_last(), b);
        lemma_anchored_walk_node(cs.last(), r1.1);
        lemma_sum_normal_concat(r1.0, r2.0);
    }
}

proof fn lemma_sum_normal_concat(s1: Seq<SegModel>, s2: Seq<SegModel>)
    ensures
        sum_normal(s1 + s2) == sum_normal(s1) + sum_normal(s2),
    decreases s2.len(),
{
    if s2.len() == 0 {
        assert(s1 + s2 =~= s1);
    } else {
        lemma_sum_normal_concat(s1, s2.drop_last());
        assert((s1 + s2).drop_last() =~= s1 + s2.drop_last());
        assert((s1 + s2).last() == s2.last());
    }
}

/// Anchoring does not cancel inside a subtree: once the walk enters an
/// anchored context, no descendant text adds plain width. All the plain
/// width found in the subtree's segments and in the accumulator it leaves
/// behind was already in the accumulator when the subtree was entered.
pub proof fn lemma_anchored_walk_node(n: DomNode, b: SegModel)
    requires
        b.normal2 >= 0,
    ensures
        ({
            let r = walk_node(n, true, b);
            &&& 0 <= sum_normal(r.0) + r.1.normal2 <= b.normal2
            &&& r.1.normal2 >= 0
            &&& sum_normal(r.0) >= 0
        }),
    decreases n,
{
    match n {
        DomNode::Document { children } => {
            lemma_anchored_walk_seq(children@, b);
            assert(walk_node(n, true, b) == walk_seq(children@, true, b));
        },
        DomNode::Text { contents } => {
        },
        DomNode::Element { name, children } => {
            let tag = lower_ascii(name@);
            if is_ignore_tag(tag) {
            } else if crate::dom::is_block_tag(tag) {
                let r0 = emit_model(b);
                let r1 = walk_seq(children@, true, r0.1);
                let r2 = emit_model(r1.1);
                lemma_anchored_walk_seq(children@, r0.1);
                lemma_sum_normal_concat(r0.0, r1.0);
                lemma_sum_normal_concat(r0.0 + r1.0, r2.0);
                lemma_sum_normal_emit(b);
                lemma_sum_normal_emit(r1.1);
            } else {
                lemma_anchored_walk_seq(children@, b);
                assert(walk_node(n, true, b) == walk_seq(children@, true, b));
            }
        },
        _ => {},
    }
}

/// An ignored element contributes nothing at all: no segments, no width,
/// and the accumulator passes through unchanged, whatever lies below it.
pub proof fn lemma_ignored_element_contributes_nothing(
    name: String,
    children: Vec<DomNode>,
    anchored: bool,
    b: SegModel,
)
    requires
        is_ignore_tag(lower_ascii(name@)),
    ensures
        walk_node(DomNode::Element { name, children }, anchored, b).0 == Seq::<SegModel>::empty(),
        walk_node(DomNode::Element { name, children }, anchored, b).1 == b,
{
}

/// An anchor element forces the anchored context on its whole subtree,
/// whatever context it inherited: anchoring is monotonic and cannot be
/// cancelled by nesting.
pub proof fn lemma_anchor_element_forces_anchored(
    name: String,
    children: Vec<DomNode>,
    anchored: bool,
    b: SegModel,
)
    requires
        lower_ascii(name@) == "a"@,
    ensures
        walk_node(DomNode::Element { name, children }, anchored, b) == walk_seq(
            children@,
            true,
            b,
        ),
{
    reveal_strlit("a");
    reveal_strlit("area");
    reveal_strlit("base");
    reveal_strlit("datalist");
    reveal_strlit("head");
    reveal_strlit("link");
    reveal_strlit("meta");
    reveal_strlit("noscript");
    reveal_strlit("param");
    reveal_strlit("script");
    reveal_strlit("style");
    reveal_strlit("title");
    reveal_strlit("address");
    reveal_strlit("article");
    reveal_strlit("aside");
    reveal_strlit("blockquote");
    reveal_strlit("body");
    reveal_strlit("caption");
    reveal_strlit("colgroup");
    reveal_strlit("dd");
    reveal_strlit("details");
    reveal_strlit("div");
    reveal_strlit("dl");
    reveal_strlit("dt");
    reveal_strlit("fieldset");
    reveal_strlit("figcaption");
    reveal_strlit("figure");
    reveal_strlit("footer");
    reveal_strlit("form");
    reveal_strlit("h1");
    reveal_strlit("h2");
    reveal_strlit("h3");
    reveal_strlit("h4");
    reveal_strlit("h5");
    reveal_strlit("h6");
    reveal_strlit("header");
    reveal_strlit("hr");
    reveal_strlit("html");
    reveal_strlit("iframe");
    reveal_strlit("legend");
    reveal_strlit("li");
    reveal_strlit("menu");
    reveal_strlit("nav");
    reveal_strlit("ol");
    reveal_strlit("p");
    reveal_strlit("pre");
    reveal_strlit("section");
    reveal_strlit("summary");
    reveal_strlit("table");
    reveal_strlit("tbody");
    reveal_strlit("tfoot");
    reveal_strlit("thead");
    reveal_strlit("tr");
    reveal_strlit("ul");
    assert("a"@.len() == 1);
    assert("a"@[0] == 'a');
    assert("area"@.len() == 4);
    assert("base"@.len() == 4);
    assert("datalist"@.len() == 8);
    assert("head"@.len() == 4);
    assert("link"@.len() == 4);
    assert("meta"@.len() == 4);
    assert("noscript"@.len() == 8);
    assert("param"@.len() == 5);
    assert("script"@.len() == 6);
    assert("style"@.len() == 5);
    assert("title"@.len() == 5);
    assert("address"@.len() == 7);
    assert("article"@.len() == 7);
    assert("aside"@.len() == 5);
    assert("blockquote"@.len() == 10);
    assert("body"@.len() == 4);
    assert("caption"@.len() == 7);
    assert("colgroup"@.len() == 8);
    assert("dd"@.len() == 2);
    assert("details"@.len() == 7);
    assert("div"@.len() == 3);
    assert("dl"@.len() == 2);
    assert("dt"@.len() == 2);
    assert("fieldset"@.len() == 8);
    assert("figcaption"@.len() == 10);
    assert("figure"@.len() == 6);
    assert("footer"@.len() == 6);
    assert("form"@.len() == 4);
    assert("h1"@.len() == 2);
    assert("h2"@.len() == 2);
    assert("h3"@.len() == 2);
    assert("h4"@.len() == 2);
    assert("h5"@.len() == 2);
    assert("h6"@.len() == 2);
    assert("header"@.len() == 6);
    assert("hr"@.len() == 2);
    assert("html"@.len() == 4);
    assert("iframe"@.len() == 6);
    assert("legend"@.len() == 6);
    assert("li"@.len() == 2);
    assert("menu"@.len() == 4);
    assert("nav"@.len() == 3);
    assert("ol"@.len() == 2);
    assert("p"@[0] == 'p');
    assert("pre"@.len() == 3);
    assert("section"@.len() == 7);
    assert("summary"@.len() == 7);
    assert("table"@.len() == 5);
    assert("tbody"@.len() == 5);
    assert("tfoot"@.len() == 5);
    assert("thead"@.len() == 5);
    assert("tr"@.len() == 2);
    assert("ul"@.len() == 2);
    assert(!is_ignore_tag("a"@));
    assert(!crate::dom::is_block_tag("a"@));
}

} // verus!
