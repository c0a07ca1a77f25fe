use eipw_lint::disposition::{cap, cap_snippet, Disposition};
use eipw_lint::diagnostic::{Annotation, Slice, Snippet, SourceAnnotation};
use eipw_lint::modifier::trim;
use eipw_lint::severity::AnnotationTypeDef;

#[test]
fn severity_names_round_trip() {
    for t in [
        AnnotationTypeDef::Error,
        AnnotationTypeDef::Warning,
        AnnotationTypeDef::Info,
        AnnotationTypeDef::Note,
        AnnotationTypeDef::Help,
    ] {
        assert_eq!(AnnotationTypeDef::from_name(t.name()), Some(t));
    }
    assert_eq!(AnnotationTypeDef::Warning.name(), "warning");
    assert_eq!(AnnotationTypeDef::from_name("Error"), None);
    assert_eq!(AnnotationTypeDef::from_name(""), None);
}

#[test]
fn severity_ranks_are_ordered() {
    assert_eq!(AnnotationTypeDef::Error.rank(), 4);
    assert_eq!(AnnotationTypeDef::Warning.rank(), 3);
    assert_eq!(AnnotationTypeDef::Info.rank(), 2);
    assert_eq!(AnnotationTypeDef::Note.rank(), 1);
    assert_eq!(AnnotationTypeDef::Help.rank(), 0);
}

#[test]
fn warn_caps_errors_only() {
    assert_eq!(cap(AnnotationTypeDef::Error, Disposition::Warn), AnnotationTypeDef::Warning);
    assert_eq!(cap(AnnotationTypeDef::Error, Disposition::Deny), AnnotationTypeDef::Error);
    assert_eq!(cap(AnnotationTypeDef::Help, Disposition::Warn), AnnotationTypeDef::Help);
    assert_eq!(cap(AnnotationTypeDef::Info, Disposition::Warn), AnnotationTypeDef::Info);
}

fn sample() -> Snippet {
    Snippet {
        title: Annotation {
            id: Some("rule".to_string()),
            annotation_type: AnnotationTypeDef::Error,
            label: "bad".to_string(),
        },
        footer: vec![Annotation { id: None, annotation_type: AnnotationTypeDef::Help, label: "hint".to_string() }],
        slices: vec![Slice {
            source: "status: Final".to_string(),
            line_start: 3,
            origin: Some("a.md".to_string()),
            annotations: vec![SourceAnnotation {
                range: (8, 13),
                annotation_type: AnnotationTypeDef::Error,
                label: "here".to_string(),
            }],
            fold: false,
        }],
    }
}

#[test]
fn warn_lowers_but_keeps_the_finding() {
    let s = sample();
    let w = cap_snippet(&s, Disposition::Warn);
    let d = cap_snippet(&s, Disposition::Deny);
    assert_eq!(w.title.annotation_type, AnnotationTypeDef::Warning);
    assert_eq!(d.title.annotation_type, AnnotationTypeDef::Error);
    assert_eq!(w.title.label, d.title.label);
    assert_eq!(w.footer[0].annotation_type, AnnotationTypeDef::Help);
    assert_eq!(w.slices[0].annotations[0].annotation_type, AnnotationTypeDef::Warning);
    assert_eq!(w.slices[0].annotations[0].range, (8, 13));
    assert_eq!(w.slices[0].source, d.slices[0].source);
    assert!(w.title.annotation_type.rank() <= d.title.annotation_type.rank());
}

#[test]
fn trim_strips_unicode_white_space() {
    assert_eq!(trim("  Final \t"), "Final");
    assert_eq!(trim("\u{3000}Draft\u{a0}"), "Draft");
    assert_eq!(trim("   "), "");
    assert_eq!(trim("a b"), "a b");
}
