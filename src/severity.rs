//! Severities of annotations and the dispositions that govern them.
use vstd::prelude::*;

verus! {

/// The severity of an annotation, from most severe (`Error`) to least
/// severe (`Help`, which carries no pass/fail weight).
#[derive(Debug, Clone, Copy, PartialEq, Eq, Structural)]
pub enum AnnotationTypeDef {
    Error,
    Warning,
    Info,
    Note,
    Help,
}

/// Whether two strings hold the same characters.
pub fn text_eq(a: &str, b: &str) -> (r: bool)
    ensures
        r == (a@ == b@),
{
    let x = String::from_str(a);
    let y = String::from_str(b);
    x == y
}

impl AnnotationTypeDef {
    /// How severe this is: the larger, the more severe.
    pub open spec fn weight(self) -> nat {
        match self {
            AnnotationTypeDef::Error => 4,
            AnnotationTypeDef::Warning => 3,
            AnnotationTypeDef::Info => 2,
            AnnotationTypeDef::Note => 1,
            AnnotationTypeDef::Help => 0,
        }
    }

    /// The lower-case name used in configuration and structured output.
    pub open spec fn spec_name(self) -> Seq<char> {
        match self {
            AnnotationTypeDef::Error => "error"@,
            AnnotationTypeDef::Warning => "warning"@,
            AnnotationTypeDef::Info => "info"@,
            AnnotationTypeDef::Note => "note"@,
            AnnotationTypeDef::Help => "help"@,
        }
    }

    pub fn rank(&self) -> (r: u8)
        ensures
            r as nat == self.weight(),
    {
        match self {
            AnnotationTypeDef::Error => 4,
            AnnotationTypeDef::Warning => 3,
            AnnotationTypeDef::Info => 2,
            AnnotationTypeDef::Note => 1,
            AnnotationTypeDef::Help => 0,
        }
    }

    /// The name of this severity (`"error"`, `"warning"`, ...).
    pub fn name(&self) -> (r: &'static str)
        ensures
            r@ == self.spec_name(),
    {
        match self {
            AnnotationTypeDef::Error => "error",
            AnnotationTypeDef::Warning => "warning",
            AnnotationTypeDef::Info => "info",
            AnnotationTypeDef::Note => "note",
            AnnotationTypeDef::Help => "help",
        }
    }

    /// Reads a severity from its name; `None` for any other text.
    pub fn from_name(s: &str) -> (r: Option<AnnotationTypeDef>)
        ensures
            match r {
                Some(t) => t.spec_name() == s@,
                None => forall|t: AnnotationTypeDef| #[trigger] t.spec_name() != s@,
            },
    {
        proof {
            reveal_strlit("error");
            reveal_strlit("warning");
            reveal_strlit("info");
            reveal_strlit("note");
            reveal_strlit("help");
        }
        if text_eq(s, "error") {
            Some(AnnotationTypeDef::Error)
        } else if text_eq(s, "warning") {
            Some(AnnotationTypeDef::Warning)
        } else if text_eq(s, "info") {
            Some(AnnotationTypeDef::Info)
        } else if text_eq(s, "note") {
            Some(AnnotationTypeDef::Note)
        } else if text_eq(s, "help") {
            Some(AnnotationTypeDef::Help)
        } else {
            None
        }
    }
}

} // verus!
