//! The structured form of one finding: a titled, sliced, annotated snippet.
use vstd::prelude::*;
use crate::severity::AnnotationTypeDef;

verus! {

/// A labelled annotation, used for a snippet's title and its footer notes.
pub struct Annotation {
    pub id: Option<String>,
    pub annotation_type: AnnotationTypeDef,
    pub label: String,
}

/// An annotation of the range `range` of a slice's source, counted in
/// characters (the unit of the snippet renderer).
pub struct SourceAnnotation {
    pub range: (usize, usize),
    pub annotation_type: AnnotationTypeDef,
    pub label: String,
}

/// One excerpt of the document, starting at 1-based line `line_start`.
pub struct Slice {
    pub source: String,
    pub line_start: usize,
    pub origin: Option<String>,
    pub annotations: Vec<SourceAnnotation>,
    pub fold: bool,
}

/// One diagnostic.
pub struct Snippet {
    pub title: Annotation,
    pub footer: Vec<Annotation>,
    pub slices: Vec<Slice>,
}

impl Slice {
    /// Every annotated range lies within the source.
    pub open spec fn wf(&self) -> bool {
        forall|i: int|
            0 <= i < self.annotations@.len() ==> {
                let r = #[trigger] self.annotations@[i].range;
                r.0 <= r.1 <= self.source@.len()
            }
    }
}

impl Snippet {
    pub open spec fn wf(&self) -> bool {
        forall|i: int| 0 <= i < self.slices@.len() ==> #[trigger] self.slices@[i].wf()
    }
}

/// `a` is titled `label`, at severity `ty`, for the rule `id`.
pub open spec fn annotation_is(a: Annotation, id: Seq<char>, ty: AnnotationTypeDef, label: Seq<char>) -> bool {
    &&& a.id is Some
    &&& a.id->0@ == id
    &&& a.annotation_type == ty
    &&& a.label@ == label
}

/// A copy of an optional string.
pub fn clone_text_opt(o: &Option<String>) -> (r: Option<String>)
    ensures
        r == *o,
{
    match o {
        Some(s) => Some(s.clone()),
        None => None,
    }
}

} // verus!
