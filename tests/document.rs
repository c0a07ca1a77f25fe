use eipw_lint::document::{Context, ParseError};
use eipw_lint::severity::AnnotationTypeDef;

fn parse(src: &str) -> Result<Context, ParseError> {
    Context::parse(src, Some("eip-1.md".to_string()))
}

#[test]
fn parse_reads_fields_and_body() {
    let ctx = parse("---\neip: 1\ntitle: A title\n---\n## Abstract\nText\n").unwrap();
    assert_eq!(ctx.preamble.len(), 2);
    assert_eq!(ctx.preamble[0].name, "eip");
    assert_eq!(ctx.preamble[0].value, " 1");
    assert_eq!(ctx.preamble[0].line, 2);
    assert_eq!(ctx.preamble[1].name, "title");
    assert_eq!(ctx.preamble[1].value, " A title");
    assert_eq!(ctx.preamble[1].line, 3);
    assert_eq!(ctx.body, "## Abstract\nText\n");
    assert_eq!(ctx.body_line, 4);
    assert_eq!(ctx.lines.len(), 6);
    assert_eq!(ctx.lines[4], "## Abstract");
    assert_eq!(ctx.origin, Some("eip-1.md".to_string()));
    assert_eq!(ctx.settings.default_annotation_type, AnnotationTypeDef::Error);
}

#[test]
fn parse_without_preamble_fails() {
    assert_eq!(parse("## Abstract\nText\n").err(), Some(ParseError::MissingPreamble));
    assert_eq!(parse("").err(), Some(ParseError::MissingPreamble));
}

#[test]
fn parse_unclosed_preamble_fails() {
    assert_eq!(parse("---\neip: 1\n## Abstract\n").err(), Some(ParseError::MissingPreamble));
}

#[test]
fn parse_malformed_field_fails() {
    assert_eq!(
        parse("---\neip: 1\nno colon here\n---\nbody\n").err(),
        Some(ParseError::MalformedField { line: 3 })
    );
}

#[test]
fn parse_empty_body() {
    let ctx = parse("---\neip: 1\n---\n").unwrap();
    assert_eq!(ctx.body, "");
    assert_eq!(ctx.body_line, 3);
}

#[test]
fn by_name_takes_first_occurrence() {
    let ctx = parse("---\nstatus: Draft\nstatus: Final\n---\n").unwrap();
    let f = ctx.by_name("status").unwrap();
    assert_eq!(f.value, " Draft");
    assert_eq!(f.line, 2);
    assert!(ctx.by_name("author").is_none());
}

#[test]
fn colon_in_value_is_kept() {
    let ctx = parse("---\ndiscussions-to: https://example.com/x\n---\n").unwrap();
    assert_eq!(ctx.preamble[0].name, "discussions-to");
    assert_eq!(ctx.preamble[0].value, " https://example.com/x");
}

#[test]
fn all_by_name_lists_duplicates() {
    let ctx = parse("---\nauthor: A\ntitle: T\nauthor: B\n---\n").unwrap();
    assert_eq!(ctx.all_by_name("author"), vec![0, 2]);
    assert_eq!(ctx.all_by_name("title"), vec![1]);
    assert!(ctx.all_by_name("status").is_empty());
}

#[test]
fn line_at_is_one_based() {
    let ctx = parse("---\neip: 1\n---\nbody\n").unwrap();
    assert_eq!(eipw_lint::document::line_at(&ctx.lines, 1), "---");
    assert_eq!(eipw_lint::document::line_at(&ctx.lines, 4), "body");
    assert_eq!(eipw_lint::document::line_at(&ctx.lines, 0), "");
    assert_eq!(eipw_lint::document::line_at(&ctx.lines, 5), "");
}
