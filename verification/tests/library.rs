use prose_density::{
    count_duplicates, fill_up_hole, flatten_dom, normalize_ws, remove_numbers, DomNode, Paragraph,
};

fn doc(children: Vec<DomNode>) -> DomNode {
    DomNode::Document { children }
}

fn el(name: &str, children: Vec<DomNode>) -> DomNode {
    DomNode::Element { name: name.to_string(), children }
}

fn txt(s: &str) -> DomNode {
    DomNode::Text { contents: s.to_string() }
}

fn norm(s: &str) -> String {
    normalize_ws(s).into_iter().collect()
}

fn mean_and_deviation(xs: &[f64]) -> (f64, f64) {
    let n = xs.len();
    let m = xs.iter().sum::<f64>() / n as f64;
    let s = xs.iter().map(|e| (e - m) * (e - m)).sum::<f64>() / (n - 1) as f64;
    (m, f64::sqrt(s))
}

fn raw_scores(src: &Vec<Paragraph>) -> Vec<f64> {
    let counts = count_duplicates(src);
    let lls: Vec<f64> = src
        .iter()
        .map(|e| f64::ln((e.normal_len2 + e.anchor_len2) as f64))
        .chain([0.0, 6.0].iter().copied())
        .collect();
    let nrs: Vec<f64> = src
        .iter()
        .map(|e| e.normal_len2 as f64 / (e.normal_len2 + e.anchor_len2) as f64)
        .chain([0.0, 1.0].iter().copied())
        .collect();
    let (lls_m, lls_d) = mean_and_deviation(&lls);
    let (nrs_m, nrs_d) = mean_and_deviation(&nrs);
    (0..src.len())
        .map(|i| {
            let llr = (lls[i] - lls_m) / lls_d;
            let nrr = (nrs[i] - nrs_m) / nrs_d;
            llr + nrr - f64::log2(counts[i] as f64) + 1.0
        })
        .collect()
}

fn f64_key(x: f64) -> u64 {
    let b = x.to_bits();
    if b >> 63 == 1 {
        !b
    } else {
        b | (1u64 << 63)
    }
}

fn key_f64(k: u64) -> f64 {
    let b = if k >> 63 == 1 { k & !(1u64 << 63) } else { !k };
    f64::from_bits(b)
}

fn calc_scores(src: &Vec<Paragraph>) -> Vec<f64> {
    let mut keys: Vec<u64> = raw_scores(src).into_iter().map(f64_key).collect();
    fill_up_hole(&mut keys);
    keys.into_iter().map(key_f64).collect()
}

#[test]
fn normalize_collapses_blank_runs() {
    assert_eq!(norm("a \t\r\n b"), "a b");
    assert_eq!(norm("  lead and trail  "), " lead and trail ");
    assert_eq!(norm(""), "");
}

#[test]
fn normalize_is_idempotent_on_examples() {
    for s in ["a \t b\n\nc", " x ", "no blanks", "\t\t", "ä  ö"] {
        let once = norm(s);
        assert_eq!(norm(&once), once);
    }
}

#[test]
fn single_text_makes_one_segment() {
    let tree = doc(vec![el("div", vec![txt("Hello world.")])]);
    let segs = flatten_dom(&tree);
    assert_eq!(segs.len(), 1);
    assert_eq!(segs[0].text, "Hello world.");
    assert_eq!(segs[0].normal_len2, 24);
    assert_eq!(segs[0].anchor_len2, 0);
}

#[test]
fn blank_text_makes_no_segment() {
    let tree = doc(vec![el("div", vec![txt("   \t\n ")])]);
    let segs = flatten_dom(&tree);
    assert_eq!(segs.len(), 0);
}

#[test]
fn block_boundaries_split_segments_in_document_order() {
    let tree = doc(vec![
        txt("before"),
        el("div", vec![txt("inside")]),
        txt("after"),
    ]);
    let segs = flatten_dom(&tree);
    let texts: Vec<&str> = segs.iter().map(|s| s.text.as_str()).collect();
    assert_eq!(texts, vec!["before", "inside", "after"]);
}

#[test]
fn inline_elements_do_not_split() {
    let tree = doc(vec![el(
        "p",
        vec![txt("one "), el("span", vec![txt("two")]), txt(" three")],
    )]);
    let segs = flatten_dom(&tree);
    assert_eq!(segs.len(), 1);
    assert_eq!(segs[0].text, "one two three");
}

#[test]
fn ignored_elements_contribute_nothing() {
    let tree = doc(vec![el(
        "div",
        vec![
            el("script", vec![txt("var x = 1;"), el("div", vec![txt("deep")])]),
            el("style", vec![txt("body { color: red }")]),
            txt("Hi"),
        ],
    )]);
    let segs = flatten_dom(&tree);
    assert_eq!(segs.len(), 1);
    assert_eq!(segs[0].text, "Hi");
    assert_eq!(segs[0].normal_len2, 4);
    assert_eq!(segs[0].anchor_len2, 0);
}

#[test]
fn anchor_width_counted_through_nested_inline_elements() {
    let tree = doc(vec![el(
        "div",
        vec![el("a", vec![el("span", vec![el("b", vec![txt("deep")])])])],
    )]);
    let segs = flatten_dom(&tree);
    assert_eq!(segs.len(), 1);
    assert_eq!(segs[0].text, "deep");
    assert_eq!(segs[0].anchor_len2, 8);
    assert_eq!(segs[0].normal_len2, 0);
}

#[test]
fn tag_names_are_case_insensitive() {
    let tree = doc(vec![
        el("DIV", vec![txt("one")]),
        el("Script", vec![txt("hidden")]),
        el("A", vec![txt("link")]),
    ]);
    let segs = flatten_dom(&tree);
    assert_eq!(segs.len(), 2);
    assert_eq!(segs[0].text, "one");
    assert_eq!(segs[1].text, "link");
    assert_eq!(segs[1].anchor_len2, 8);
}

#[test]
fn duplicate_boundary_space_subtracts_one_half_unit() {
    let tree = doc(vec![el("div", vec![txt("a "), txt(" b")])]);
    let segs = flatten_dom(&tree);
    assert_eq!(segs.len(), 1);
    assert_eq!(segs[0].text, "a b");
    // "a " is four half-units; the merged " b" is four minus the dropped space.
    assert_eq!(segs[0].normal_len2, 7);
}

#[test]
fn wide_characters_count_double_width() {
    let tree = doc(vec![el("div", vec![txt("あ")]), el("div", vec![txt("a")])]);
    let segs = flatten_dom(&tree);
    assert_eq!(segs.len(), 2);
    assert_eq!(segs[0].normal_len2, 4);
    assert_eq!(segs[1].normal_len2, 2);
}

#[test]
fn remove_numbers_collapses_numeric_literals() {
    assert_eq!(remove_numbers("Page 1 of 10"), "Page 0 of 0");
    assert_eq!(remove_numbers("+1,234.56 items"), "0 items");
    assert_eq!(remove_numbers("1.2.3"), "0.0");
    assert_eq!(remove_numbers("1, 2"), "0 0");
    assert_eq!(remove_numbers("a-12"), "a0");
    assert_eq!(remove_numbers("- no number"), "- no number");
    assert_eq!(remove_numbers(""), "");
}

fn para(text: &str) -> Paragraph {
    Paragraph { text: text.to_string(), anchor_len2: 0, normal_len2: 2 * text.len() }
}

#[test]
fn duplicates_are_numeral_invariant() {
    let src = vec![para("Page 1 of 10"), para("Body text"), para("Page 2 of 20")];
    let counts = count_duplicates(&src);
    assert_eq!(counts, vec![2, 1, 2]);
}

#[test]
fn unique_segments_count_one() {
    let src = vec![para("alpha"), para("beta")];
    assert_eq!(count_duplicates(&src), vec![1, 1]);
}

#[test]
fn fill_up_hole_raises_interior_dip() {
    let mut xs: Vec<u64> = vec![5, 1, 9];
    fill_up_hole(&mut xs);
    assert_eq!(xs, vec![5, 5, 9]);
}

#[test]
fn fill_up_hole_keeps_endpoints_and_never_decreases() {
    let mut xs: Vec<u64> = vec![5, 1, 2, 9];
    fill_up_hole(&mut xs);
    assert_eq!(xs, vec![5, 2, 2, 9]);
    let mut one: Vec<u64> = vec![3];
    fill_up_hole(&mut one);
    assert_eq!(one, vec![3]);
}

#[test]
fn nav_row_between_duplicated_paragraphs() {
    let tree = doc(vec![
        el("div", vec![txt("Alpha beta gamma delta.")]),
        el(
            "div",
            vec![el("a", vec![txt("Home")]), txt(" "), el("a", vec![txt("About")])],
        ),
        el("div", vec![txt("Alpha beta gamma delta.")]),
    ]);
    let segs = flatten_dom(&tree);
    assert_eq!(segs.len(), 3);
    assert_eq!(segs[0].text, "Alpha beta gamma delta.");
    assert_eq!(segs[1].text, "Home About");
    assert_eq!(segs[2].text, "Alpha beta gamma delta.");
    assert_eq!(count_duplicates(&segs), vec![2, 1, 2]);
    // The outer paragraphs are pure prose, the nav row is almost all link.
    assert_eq!(segs[0].anchor_len2, 0);
    assert!(segs[0].normal_len2 > 0);
    assert_eq!(segs[1].anchor_len2, 18);
    assert_eq!(segs[1].normal_len2, 2);
    // Before smoothing the link-only nav text scores lowest and the two
    // duplicated prose rows score equal.
    let raw = raw_scores(&segs);
    assert_eq!(raw[0], raw[2]);
    assert!(raw[1] < raw[0]);
    // Hole-filling then lifts the single dip up to its neighbors' level.
    let smoothed = calc_scores(&segs);
    assert_eq!(smoothed[0], raw[0]);
    assert_eq!(smoothed[2], raw[2]);
    assert_eq!(smoothed[1], smoothed[0]);
}

#[test]
fn single_segment_scores_without_error() {
    let tree = doc(vec![el("div", vec![txt("Only one paragraph here.")])]);
    let segs = flatten_dom(&tree);
    assert_eq!(segs.len(), 1);
    let scores = calc_scores(&segs);
    assert_eq!(scores.len(), 1);
    assert!(scores[0].is_finite());
}
