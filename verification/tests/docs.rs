use nitrox::docs::{heading_anchors, mask_code_spans};
use nitrox::references::{
    describes_current, has_status, is_record, look_up, references, Found, Kind,
};

#[test]
fn closed_code_is_masked() {
    assert_eq!(mask_code_spans("a `b` c"), "a \0\0\0 c");
    assert_eq!(mask_code_spans("a `b c"), "a `b c");
    assert_eq!(mask_code_spans("`x``y`z"), "\0\0\0\0\0\0z");
}

#[test]
fn a_heading_offers_an_anchor() {
    let doc = "# The A_B, c-d!\n```\n# not one\n```\n## Again\n### Again\n<a id=\"own\"></a>\n# \u{c9}t\u{e9} \u{2014} \u{130}x\n";
    assert_eq!(
        heading_anchors(doc),
        ["the-a_b-c-d", "again", "again-1", "own", "\u{e9}t\u{e9}--i\u{307}x"]
    );
    assert_eq!(heading_anchors("#\n##  \ntext"), Vec::<String>::new());
}

fn seen(doc: &str, current: bool, record: bool) -> Vec<(usize, Kind, String, String)> {
    references(doc, current, record)
        .into_iter()
        .map(|r| (r.line, r.kind, r.target, r.anchor))
        .collect()
}

fn of(line: usize, kind: Kind, target: &str, anchor: &str) -> (usize, Kind, String, String) {
    (line, kind, target.to_string(), anchor.to_string())
}

#[test]
fn a_documents_references_are_read() {
    let doc = "[x](a.md#top) [y](#here) [z](https://e.org/b.md)\n`docs/c.md` `d.md` `x/e.md`\n`kernel/f.rs`\n[l](src.rs#L10-L20) `[m](n.md)`";
    assert_eq!(
        seen(doc, true, false),
        [
            of(1, Kind::Heading, "a.md", "top"),
            of(1, Kind::Link, "a.md", ""),
            of(1, Kind::Heading, "", "here"),
            of(2, Kind::CitedPath, "docs/c.md", ""),
            of(2, Kind::CitedName, "d.md", ""),
            of(3, Kind::Source, "kernel/f.rs", ""),
        ]
    );
    assert_eq!(seen(doc, false, true).len(), 3, "a record's citations are history");
    assert_eq!(seen("[x](a.md/.//#b)", true, false), [of(1, Kind::Heading, "a.md/.//", "b")]);
    assert_eq!(seen("[x](a/.md#b)", true, false), [of(1, Kind::Link, "a/.md", "")]);
    assert_eq!(seen("`d.md` <!-- check-docs: allow-missing -->", true, false), []);
}

#[test]
fn a_document_is_current_or_a_record_by_its_path() {
    assert!(describes_current("/r/docs/spec/a.md"));
    assert!(describes_current("C:\\r\\docs\\reference\\a.md"));
    assert!(!describes_current("/r/docs/plan.md"));
    assert!(is_record("/r/docs/decision-log.md"));
    assert!(is_record("/r/docs/archive/x/a.md"));
    assert!(!is_record("/r/docs/decision-log.md.bak"));
}

#[test]
fn an_anchor_is_found_or_a_near_one_is() {
    let known = vec!["setup".to_string(), "the-end".to_string()];
    assert!(matches!(look_up(&known, "the-end"), Found::Yes));
    assert!(matches!(look_up(&known, "the-start"), Found::Near(s) if s == "the-end"));
    assert!(matches!(look_up(&known, "other"), Found::No));
}

#[test]
fn a_status_is_stated_near_the_top() {
    assert!(has_status("# T\n\n> **Status:** built\n"));
    assert!(has_status("STATUS"));
    assert!(!has_status("# The status\n"));
    let far = "\n".repeat(20) + "status";
    assert!(!has_status(&far));
    assert!(has_status(&far[1..]));
}

#[test]
fn heading_anchors_stay_distinct() {
    assert_eq!(heading_anchors("# a\n# a\n# a-1\n"), ["a", "a-1", "a-1-1"]);
    assert_eq!(heading_anchors("# a-1\n# a\n# a\n# a\n"), ["a-1", "a", "a-2", "a-3"]);
    assert_eq!(heading_anchors("# !\n# ?\n"), ["", "-1"]);
}

#[test]
fn fenced_headings_are_not_headings() {
    assert_eq!(heading_anchors("```\n~~~\n# x\n~~~\n```\n# y\n"), ["y"]);
    assert_eq!(heading_anchors("~~~\n```\n# x\n~~~\n# y\n"), ["y"]);
    assert_eq!(heading_anchors("````\n```\n# x\n````\n# y\n"), ["y"], "a shorter fence");
    assert_eq!(heading_anchors("```\n```rust\n# x\n  ```` \n# y\n"), ["y"], "a fence with words");
    assert_eq!(heading_anchors("```code``` in a line\n# y\n"), ["y"], "inline code");
    assert_eq!(heading_anchors("``\n# y\n"), ["y"], "two are no fence");
    assert_eq!(heading_anchors("```\n# x\n"), Vec::<String>::new(), "never closed");
}
