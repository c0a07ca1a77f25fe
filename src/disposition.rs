//! How a rule's disposition (warn or deny) bears on the severity of what it
//! reports.
use vstd::prelude::*;
use crate::severity::AnnotationTypeDef;
use crate::diagnostic::{Annotation, SourceAnnotation, Slice, Snippet, clone_text_opt};

verus! {

/// How an enabled rule's findings surface. (An allowed rule does not run.)
#[derive(Debug, Clone, Copy, PartialEq, Eq, Structural)]
pub enum Disposition {
    /// Findings are capped at `Warning`.
    Warn,
    /// Findings keep the severity their rule gave them.
    Deny,
}

/// The severity `t` under disposition `d`.
pub open spec fn capped(t: AnnotationTypeDef, d: Disposition) -> AnnotationTypeDef {
    match d {
        Disposition::Deny => t,
        Disposition::Warn => if t == AnnotationTypeDef::Error {
            AnnotationTypeDef::Warning
        } else {
            t
        },
    }
}

pub fn cap(t: AnnotationTypeDef, d: Disposition) -> (r: AnnotationTypeDef)
    ensures
        r == capped(t, d),
{
    match d {
        Disposition::Deny => t,
        Disposition::Warn => match t {
            AnnotationTypeDef::Error => AnnotationTypeDef::Warning,
            _ => t,
        },
    }
}

/// `o` is `a` with its severity under disposition `d`.
pub open spec fn annotation_capped(o: Annotation, a: Annotation, d: Disposition) -> bool {
    o.id == a.id && o.label == a.label && o.annotation_type == capped(a.annotation_type, d)
}

pub open spec fn source_annotation_capped(o: SourceAnnotation, a: SourceAnnotation, d: Disposition) -> bool {
    o.range == a.range && o.label == a.label && o.annotation_type == capped(a.annotation_type, d)
}

pub open spec fn slice_capped(o: Slice, a: Slice, d: Disposition) -> bool {
    &&& o.source == a.source
    &&& o.line_start == a.line_start
    &&& o.origin == a.origin
    &&& o.fold == a.fold
    &&& o.annotations@.len() == a.annotations@.len()
    &&& forall|i: int|
        0 <= i < a.annotations@.len() ==> source_annotation_capped(
            #[trigger] o.annotations@[i],
            a.annotations@[i],
            d,
        )
}

/// `o` is the snippet `s` with every severity under disposition `d`, and
/// nothing else changed.
pub open spec fn snippet_capped(o: Snippet, s: Snippet, d: Disposition) -> bool {
    &&& annotation_capped(o.title, s.title, d)
    &&& o.footer@.len() == s.footer@.len()
    &&& forall|i: int|
        0 <= i < s.footer@.len() ==> annotation_capped(#[trigger] o.footer@[i], s.footer@[i], d)
    &&& o.slices@.len() == s.slices@.len()
    &&& forall|i: int| 0 <= i < s.slices@.len() ==> slice_capped(#[trigger] o.slices@[i], s.slices@[i], d)
}

fn cap_annotation(a: &Annotation, d: Disposition) -> (r: Annotation)
    ensures
        annotation_capped(r, *a, d),
{
    Annotation { id: clone_text_opt(&a.id), annotation_type: cap(a.annotation_type, d), label: a.label.clone() }
}

fn cap_slice(s: &Slice, d: Disposition) -> (r: Slice)
    ensures
        slice_capped(r, *s, d),
{
    let mut anns: Vec<SourceAnnotation> = Vec::new();
    let mut i: usize = 0;
    while i < s.annotations.len()
        invariant
            i <= s.annotations@.len(),
            anns@.len() == i,
            forall|k: int| 0 <= k < i ==> source_annotation_capped(#[trigger] anns@[k], s.annotations@[k], d),
        decreases s.annotations@.len() - i,
    {
        let a = &s.annotations[i];
        anns.push(SourceAnnotation { range: a.range, annotation_type: cap(a.annotation_type, d), label: a.label.clone() });
        i += 1;
    }
    Slice {
        source: s.source.clone(),
        line_start: s.line_start,
        origin: clone_text_opt(&s.origin),
        annotations: anns,
        fold: s.fold,
    }
}

/// The snippet `s` with every severity under disposition `d`.
pub fn cap_snippet(s: &Snippet, d: Disposition) -> (r: Snippet)
    ensures
        snippet_capped(r, *s, d),
{
    let mut footer: Vec<Annotation> = Vec::new();
    let mut i: usize = 0;
    while i < s.footer.len()
        invariant
            i <= s.footer@.len(),
            footer@.len() == i,
            forall|k: int| 0 <= k < i ==> annotation_capped(#[trigger] footer@[k], s.footer@[k], d),
        decreases s.footer@.len() - i,
    {
        footer.push(cap_annotation(&s.footer[i], d));
        i += 1;
    }
    let mut slices: Vec<Slice> = Vec::new();
    let mut j: usize = 0;
    while j < s.slices.len()
        invariant
            j <= s.slices@.len(),
            slices@.len() == j,
            forall|k: int| 0 <= k < j ==> slice_capped(#[trigger] slices@[k], s.slices@[k], d),
        decreases s.slices@.len() - j,
    {
        slices.push(cap_slice(&s.slices[j], d));
        j += 1;
    }
    Snippet { title: cap_annotation(&s.title, d), footer, slices }
}

/// `w` is `v` with no severity raised, and nothing else changed but
/// severities.
pub open spec fn lowered(w: Snippet, v: Snippet) -> bool {
    &&& w.title.id == v.title.id && w.title.label == v.title.label
    &&& w.title.annotation_type.weight() <= v.title.annotation_type.weight()
    &&& w.footer@.len() == v.footer@.len()
    &&& forall|i: int|
        0 <= i < w.footer@.len() ==> (#[trigger] w.footer@[i]).label == v.footer@[i].label
            && w.footer@[i].annotation_type.weight() <= v.footer@[i].annotation_type.weight()
    &&& w.slices@.len() == v.slices@.len()
    &&& forall|i: int|
        0 <= i < w.slices@.len() ==> {
            let ws = #[trigger] w.slices@[i];
            let vs = v.slices@[i];
            &&& ws.source == vs.source && ws.line_start == vs.line_start && ws.origin == vs.origin
            &&& ws.annotations@.len() == vs.annotations@.len()
            &&& forall|k: int|
                0 <= k < ws.annotations@.len() ==> (#[trigger] ws.annotations@[k]).range
                    == vs.annotations@[k].range && ws.annotations@[k].label == vs.annotations@[k].label
                    && ws.annotations@[k].annotation_type.weight()
                    <= vs.annotations@[k].annotation_type.weight()
        }
}

/// For one finding, switching its rule from deny to warn keeps every part of
/// it but the severities, and makes none of them more severe.
pub proof fn lemma_warn_only_lowers(s: Snippet, w: Snippet, v: Snippet)
    requires
        snippet_capped(w, s, Disposition::Warn),
        snippet_capped(v, s, Disposition::Deny),
    ensures
        lowered(w, v),
{
    assert forall|i: int| 0 <= i < w.slices@.len() implies {
        let ws = #[trigger] w.slices@[i];
        let vs = v.slices@[i];
        &&& ws.source == vs.source && ws.line_start == vs.line_start && ws.origin == vs.origin
        &&& ws.annotations@.len() == vs.annotations@.len()
        &&& forall|k: int|
            0 <= k < ws.annotations@.len() ==> (#[trigger] ws.annotations@[k]).range
                == vs.annotations@[k].range && ws.annotations@[k].label == vs.annotations@[k].label
                && ws.annotations@[k].annotation_type.weight()
                <= vs.annotations@[k].annotation_type.weight()
    } by {
        assert(slice_capped(w.slices@[i], s.slices@[i], Disposition::Warn));
        assert(slice_capped(v.slices@[i], s.slices@[i], Disposition::Deny));
    }
}

} // verus!
