use eipw_lint::diagnostic::{Annotation, Snippet};
use eipw_lint::disposition::Disposition;
use eipw_lint::document::{Context, LintSettings};
use eipw_lint::linter::{Linter, Rule};
use eipw_lint::modifier::SetDefaultAnnotation;
use eipw_lint::options::{ConfigError, Opts};
use eipw_lint::reporter::{add_help, add_help_all};
use eipw_lint::requires_status::{FetchError, Reference, RequiresStatus};
use eipw_lint::section_order::SectionOrder;
use eipw_lint::severity::AnnotationTypeDef;

fn names(v: &[&str]) -> Vec<String> {
    v.iter().map(|s| s.to_string()).collect()
}

#[test]
fn allowed_rule_is_never_enabled() {
    let opts = Opts { allow: names(&["b"]), warn: names(&["b", "c"]), deny: names(&["b"]) };
    let r = opts.apply(&names(&["a", "b", "c"])).unwrap();
    assert_eq!(r, vec![(0, Disposition::Deny), (2, Disposition::Warn)]);
}

#[test]
fn deny_wins_over_warn() {
    let opts = Opts { allow: vec![], warn: names(&["a"]), deny: names(&["a"]) };
    assert_eq!(opts.apply(&names(&["a"])).unwrap(), vec![(0, Disposition::Deny)]);
}

#[test]
fn unknown_rule_is_a_configuration_error() {
    let opts = Opts { allow: names(&["zzz"]), warn: names(&["a", "nope"]), deny: names(&["bad"]) };
    match opts.apply(&names(&["a"])) {
        Err(ConfigError::UnknownRule { name }) => assert_eq!(name, "nope"),
        Ok(_) => panic!("expected an error"),
    }
    let opts = Opts { allow: vec![], warn: vec![], deny: names(&["bad"]) };
    match opts.apply(&names(&["a"])) {
        Err(ConfigError::UnknownRule { name }) => assert_eq!(name, "bad"),
        Ok(_) => panic!("expected an error"),
    }
    let opts = Opts { allow: names(&["a", "zzz"]), warn: vec![], deny: vec![] };
    match opts.apply(&names(&["a"])) {
        Err(ConfigError::UnknownRule { name }) => assert_eq!(name, "zzz"),
        Ok(_) => panic!("expected an error"),
    }
}

fn flow_rule() -> RequiresStatus {
    RequiresStatus {
        requires: "requires".to_string(),
        status: "status".to_string(),
        flow: vec![names(&["Draft", "Stagnant"]), names(&["Review"]), names(&["Last Call"]), names(&["Final"])],
        prefix: "eip-".to_string(),
        suffix: ".md".to_string(),
    }
}

fn linter(opts: Opts) -> Linter {
    Linter {
        rules: vec![
            ("markdown-order-section".to_string(), Rule::SectionOrder(SectionOrder(names(&["Abstract", "Specification"])))),
            ("preamble-requires-status".to_string(), Rule::RequiresStatus(flow_rule())),
        ],
        modifiers: vec![SetDefaultAnnotation {
            name: "status".to_string(),
            value: "Stagnant".to_string(),
            annotation_type: AnnotationTypeDef::Info,
        }],
        opts,
    }
}

fn run(l: &Linter, src: &str, target: Result<String, FetchError>) -> Vec<(usize, Vec<Snippet>)> {
    let mut ctx = Context::parse(src, None).unwrap();
    let refs = l.references(&ctx);
    let fetched: Vec<Vec<(Reference, Result<String, FetchError>)>> = refs
        .into_iter()
        .map(|rs| rs.into_iter().map(|r| (r, target.clone())).collect())
        .collect();
    l.run(&mut ctx, &fetched).unwrap()
}

const DOC: &str = "---\nstatus: Stagnant\nrequires: 7\n---\n## Specification\n\n## Abstract\n";

#[test]
fn modifier_sets_default_severity() {
    let l = linter(Opts { allow: vec![], warn: vec![], deny: vec![] });
    let out = run(&l, DOC, Err(FetchError::NotFound));
    assert_eq!(out.len(), 2);
    assert_eq!(out[0].0, 0);
    assert_eq!(out[0].1[0].title.annotation_type, AnnotationTypeDef::Error);
    assert_eq!(out[1].0, 1);
    let d = &out[1].1[0];
    assert_eq!(d.title.label, "proposal `7` could not be found");
    assert_eq!(d.slices[0].annotations[0].range, (10, 11));
    assert_eq!(out[0].1.len(), 1);
    assert_eq!(d.title.annotation_type, AnnotationTypeDef::Info);
    assert_eq!(d.slices[0].annotations[0].annotation_type, AnnotationTypeDef::Info);

    let other = DOC.replace("Stagnant", "Draft");
    let out = run(&l, &other, Err(FetchError::NotFound));
    let d = &out[1].1[0];
    assert_eq!(d.title.annotation_type, AnnotationTypeDef::Error);
    assert_eq!(d.slices[0].annotations[0].annotation_type, AnnotationTypeDef::Error);
}

#[test]
fn modify_only_on_matching_value() {
    let m = SetDefaultAnnotation {
        name: "status".to_string(),
        value: "Stagnant".to_string(),
        annotation_type: AnnotationTypeDef::Note,
    };
    let ctx = Context::parse("---\nstatus:   Stagnant  \n---\n", None).unwrap();
    let mut s = LintSettings::new();
    m.modify(&ctx, &mut s);
    assert_eq!(s.default_annotation_type, AnnotationTypeDef::Note);
    let ctx = Context::parse("---\nstatus: Final\n---\n", None).unwrap();
    let mut s = LintSettings::new();
    m.modify(&ctx, &mut s);
    assert_eq!(s.default_annotation_type, AnnotationTypeDef::Error);
}

#[test]
fn warn_caps_and_allow_silences() {
    let l = linter(Opts { allow: vec![], warn: names(&["markdown-order-section"]), deny: vec![] });
    let out = run(&l, DOC, Err(FetchError::NotFound));
    assert_eq!(out[0].1.len(), 1);
    assert_eq!(out[0].1[0].title.annotation_type, AnnotationTypeDef::Warning);
    assert_eq!(out[0].1[0].title.label, "section `Specification` must come after `Abstract`");

    let l = linter(Opts { allow: names(&["markdown-order-section"]), warn: names(&["markdown-order-section"]), deny: vec![] });
    let out = run(&l, DOC, Err(FetchError::NotFound));
    assert_eq!(out.len(), 1);
    assert_eq!(out[0].0, 1);
}

#[test]
fn unknown_warn_fails_the_run() {
    let l = linter(Opts { allow: vec![], warn: names(&["nope"]), deny: vec![] });
    let mut ctx = Context::parse(DOC, None).unwrap();
    let fetched: Vec<Vec<(Reference, Result<String, FetchError>)>> = l
        .references(&ctx)
        .into_iter()
        .map(|rs| rs.into_iter().map(|r| (r, Err(FetchError::NotFound))).collect())
        .collect();
    assert!(l.run(&mut ctx, &fetched).is_err());
    let l = linter(Opts { allow: names(&["nope"]), warn: vec![], deny: vec![] });
    assert!(l.run(&mut ctx, &fetched).is_err());
}

#[test]
fn help_note_is_appended_once() {
    let mut d = Snippet {
        title: Annotation { id: Some("rule".to_string()), annotation_type: AnnotationTypeDef::Error, label: "x".to_string() },
        footer: vec![],
        slices: vec![],
    };
    add_help(&mut d, "see https://example.org/", "/");
    assert_eq!(d.footer.len(), 1);
    assert_eq!(d.footer[0].label, "see https://example.org/rule/");
    assert_eq!(d.footer[0].annotation_type, AnnotationTypeDef::Help);
    assert_eq!(d.title.label, "x");

    let anon = Snippet {
        title: Annotation { id: None, annotation_type: AnnotationTypeDef::Error, label: "y".to_string() },
        footer: vec![],
        slices: vec![],
    };
    let all = add_help_all(vec![d, anon], "<", ">");
    assert_eq!(all[0].footer.len(), 2);
    assert_eq!(all[0].footer[1].label, "<rule>");
    assert_eq!(all[1].footer.len(), 0);
}
