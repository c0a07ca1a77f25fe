use eipw_lint::document::Context;
use eipw_lint::requires_status::{FetchError, Reference, RequiresStatus};
use eipw_lint::section_order::{Heading, SectionOrder};
use eipw_lint::severity::AnnotationTypeDef;

fn sections() -> SectionOrder {
    SectionOrder(vec!["Abstract".to_string(), "Motivation".to_string(), "Specification".to_string()])
}

fn ctx(src: &str) -> Context {
    Context::parse(src, Some("eip-1.md".to_string())).unwrap()
}

#[test]
fn sections_in_order_report_nothing() {
    let c = ctx("---\neip: 1\n---\n## Abstract\n\n## Motivation\n\n## Specification\n");
    assert!(sections().lint("markdown-order-section", &c).is_empty());
}

#[test]
fn absent_sections_are_not_reported() {
    let c = ctx("---\neip: 1\n---\n## Abstract\n\n## Specification\n");
    assert!(sections().lint("markdown-order-section", &c).is_empty());
}

#[test]
fn swapped_sections_report_once() {
    let c = ctx("---\neip: 1\n---\n## Specification\n\n## Abstract\n");
    let r = sections().lint("markdown-order-section", &c);
    assert_eq!(r.len(), 1);
    assert_eq!(r[0].title.label, "section `Specification` must come after `Abstract`");
    assert_eq!(r[0].title.id, Some("markdown-order-section".to_string()));
    assert_eq!(r[0].title.annotation_type, AnnotationTypeDef::Error);
    assert_eq!(r[0].slices.len(), 1);
    assert_eq!(r[0].slices[0].line_start, 4);
    assert_eq!(r[0].slices[0].source, "## Specification");
    assert_eq!(r[0].slices[0].origin, Some("eip-1.md".to_string()));
}

#[test]
fn extra_sections_are_reported_together() {
    let c = ctx("---\neip: 1\n---\n## Abstract\n\n## Rationale\n\n### Nested\n\n## Appendix\n");
    let r = sections().lint("markdown-order-section", &c);
    assert_eq!(r.len(), 1);
    assert_eq!(r[0].title.label, "body has extra section(s)");
    assert_eq!(r[0].slices.len(), 2);
    assert_eq!(r[0].slices[0].line_start, 6);
    assert_eq!(r[0].slices[0].source, "## Rationale");
    assert_eq!(r[0].slices[1].line_start, 10);
}

#[test]
fn misplaced_section_names_latest_predecessor() {
    let headings = vec![
        Heading { line: 1, text: "Motivation".to_string() },
        Heading { line: 5, text: "Abstract".to_string() },
        Heading { line: 3, text: "Specification".to_string() },
    ];
    let lines: Vec<String> = (1..=6).map(|n| format!("line {}", n)).collect();
    let r = sections().check("order", &None, &lines, &headings);
    assert_eq!(r.len(), 2);
    assert_eq!(r[0].title.label, "section `Motivation` must come after `Abstract`");
    assert_eq!(r[0].slices[0].source, "line 1");
    assert_eq!(r[1].title.label, "section `Specification` must come after `Abstract`");
    assert_eq!(r[1].slices[0].line_start, 3);
}

fn flow_rule() -> RequiresStatus {
    RequiresStatus {
        requires: "requires".to_string(),
        status: "status".to_string(),
        flow: vec![
            vec!["Draft".to_string(), "Stagnant".to_string()],
            vec!["Review".to_string()],
            vec!["Last Call".to_string()],
            vec!["Final".to_string()],
        ],
        prefix: "eip-".to_string(),
        suffix: ".md".to_string(),
    }
}

#[test]
fn ranks_follow_the_flow() {
    let rule = flow_rule();
    assert_eq!(rule.find_rank("Stagnant"), Some(0));
    assert_eq!(rule.find_rank("Last Call"), Some(2));
    assert_eq!(rule.find_rank("Withdrawn"), None);
    assert_eq!(rule.statuses_through(1), vec!["Draft", "Stagnant", "Review"]);
}

#[test]
fn references_point_at_each_name() {
    let c = ctx("---\nstatus: Last Call\nrequires: 20, 721\n---\n");
    let refs = flow_rule().references(&c);
    assert_eq!(refs.len(), 2);
    assert_eq!(refs[0].name, "20");
    assert_eq!(refs[0].path, "eip-20.md");
    assert_eq!(refs[0].line, 3);
    assert_eq!(refs[0].range, (10, 12));
    assert_eq!(refs[1].name, "721");
    assert_eq!(refs[1].path, "eip-721.md");
    assert_eq!(refs[1].range, (14, 17));
}

#[test]
fn less_advanced_requirement_is_reported() {
    let rule = flow_rule();
    let c = ctx("---\nstatus: Last Call\nrequires: 20\n---\n");
    let refs = rule.references(&c);
    let fetched: Vec<(Reference, Result<String, FetchError>)> = refs
        .into_iter()
        .map(|r| (r, Ok("---\nstatus: Stagnant\n---\n".to_string())))
        .collect();
    let out = rule.check("preamble-requires-status", &c, &fetched);
    assert_eq!(out.len(), 1);
    let d = out[0].as_ref().unwrap();
    assert_eq!(
        d.title.label,
        "preamble header `requires` contains items not stable enough for a `status` of `Last Call`"
    );
    assert_eq!(d.slices[0].annotations[0].label, "has a less advanced status");
    assert_eq!(d.slices[0].line_start, 3);
    assert_eq!(d.title.annotation_type, AnnotationTypeDef::Error);
    assert_eq!(d.footer.len(), 1);
    assert_eq!(d.footer[0].annotation_type, AnnotationTypeDef::Help);
    assert_eq!(d.footer[0].label, "valid `status` values for this proposal are: `Draft`, `Stagnant`");
    assert_eq!(d.slices[0].source, "requires: 20");
    assert_eq!(d.slices[0].annotations[0].range, (10, 12));
}

#[test]
fn advanced_enough_requirement_is_not_reported() {
    let rule = flow_rule();
    let c = ctx("---\nstatus: Review\nrequires: 20\n---\n");
    let refs = rule.references(&c);
    let fetched: Vec<(Reference, Result<String, FetchError>)> =
        refs.into_iter().map(|r| (r, Ok("---\nstatus:  Final \n---\n".to_string()))).collect();
    let out = rule.check("preamble-requires-status", &c, &fetched);
    assert_eq!(out.len(), 1);
    assert!(out[0].is_none());
}

#[test]
fn missing_requirement_is_reported_alone() {
    let rule = flow_rule();
    let c = ctx("---\nstatus: Final\nrequires: 1, 2\n---\n");
    let mut refs = rule.references(&c).into_iter();
    let first = refs.next().unwrap();
    let second = refs.next().unwrap();
    let fetched = vec![
        (first, Err(FetchError::NotFound)),
        (second, Ok("---\nstatus: Final\n---\n".to_string())),
    ];
    let out = rule.check("preamble-requires-status", &c, &fetched);
    assert_eq!(out.len(), 2);
    let d = out[0].as_ref().unwrap();
    assert_eq!(d.title.label, "proposal `1` could not be found");
    assert_eq!(d.slices[0].annotations[0].range, (10, 11));
    assert!(out[1].is_none());
}

#[test]
fn unreadable_and_unparsable_requirements() {
    let rule = flow_rule();
    let c = ctx("---\nstatus: Final\nrequires: 1, 2\n---\n");
    let mut refs = rule.references(&c).into_iter();
    let fetched = vec![
        (refs.next().unwrap(), Err(FetchError::Unreadable)),
        (refs.next().unwrap(), Ok("no preamble".to_string())),
    ];
    let out = rule.check("preamble-requires-status", &c, &fetched);
    assert_eq!(out[0].as_ref().unwrap().title.label, "proposal `1` could not be read");
    assert_eq!(out[1].as_ref().unwrap().title.label, "proposal `2` could not be parsed");
}

#[test]
fn repeated_section_names_count_once() {
    let order = SectionOrder(vec!["Abstract".to_string(), "Abstract".to_string(), "Specification".to_string()]);
    let c = ctx("---\neip: 1\n---\n## Abstract\n\n## Specification\n");
    assert!(order.lint("markdown-order-section", &c).is_empty());
}

#[test]
fn heading_text_joins_its_pieces() {
    let order = SectionOrder(vec!["Test Cases".to_string()]);
    let c = ctx("---\neip: 1\n---\n## Test *Cases*\n");
    assert!(order.lint("markdown-order-section", &c).is_empty());
    let c = ctx("---\neip: 1\n---\n## Test *Vectors*\n");
    assert_eq!(order.lint("markdown-order-section", &c).len(), 1);
}
