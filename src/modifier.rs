//! Modifiers: adjustments of a run's settings made before any rule runs.
use vstd::prelude::*;
use crate::severity::{AnnotationTypeDef, text_eq};
use crate::document::{Context, LintSettings, first_field};

verus! {

/// The characters with the Unicode `White_Space` property.
pub open spec fn is_white_space(c: char) -> bool {
    ('\u{9}' <= c && c <= '\u{d}') || c == ' ' || c == '\u{85}' || c == '\u{a0}' || c == '\u{1680}'
        || ('\u{2000}' <= c && c <= '\u{200a}') || c == '\u{2028}' || c == '\u{2029}' || c == '\u{202f}'
        || c == '\u{205f}' || c == '\u{3000}'
}

pub fn white_space(c: char) -> (r: bool)
    ensures
        r == is_white_space(c),
{
    ('\u{9}' <= c && c <= '\u{d}') || c == ' ' || c == '\u{85}' || c == '\u{a0}' || c == '\u{1680}'
        || ('\u{2000}' <= c && c <= '\u{200a}') || c == '\u{2028}' || c == '\u{2029}' || c == '\u{202f}'
        || c == '\u{205f}' || c == '\u{3000}'
}

/// `s[a..b]` is `s` without its leading and trailing white space.
pub open spec fn trim_bounds(s: Seq<char>, a: int, b: int) -> bool {
    &&& 0 <= a <= b <= s.len()
    &&& forall|i: int| 0 <= i < a ==> is_white_space(#[trigger] s[i])
    &&& forall|i: int| b <= i < s.len() ==> is_white_space(#[trigger] s[i])
    &&& a < b ==> !is_white_space(s[a]) && !is_white_space(s[b - 1])
}

/// `s` without its leading and trailing white space.
pub open spec fn trimmed(s: Seq<char>) -> Seq<char> {
    let (a, b) = choose|a: int, b: int| trim_bounds(s, a, b);
    s.subrange(a, b)
}

proof fn lemma_trim_unique(s: Seq<char>, a: int, b: int, a2: int, b2: int)
    requires
        trim_bounds(s, a, b),
        trim_bounds(s, a2, b2),
    ensures
        s.subrange(a, b) == s.subrange(a2, b2),
{
    if a < b && a2 < b2 {
        if a < a2 {
            assert(is_white_space(s[a]));
        }
        if a2 < a {
            assert(is_white_space(s[a2]));
        }
        if b < b2 {
            assert(is_white_space(s[b2 - 1]));
        }
        if b2 < b {
            assert(is_white_space(s[b - 1]));
        }
    } else if a < b {
        assert(is_white_space(s[a]));
    } else if a2 < b2 {
        assert(is_white_space(s[a2]));
    } else {
        assert(s.subrange(a, b) =~= s.subrange(a2, b2));
    }
}

/// Where `s` starts and ends once its leading and trailing white space is
/// left out.
pub fn trim_span(s: &str) -> (r: (usize, usize))
    ensures
        trim_bounds(s@, r.0 as int, r.1 as int),
{
    let cs = crate::document::chars_of(s);
    let n = cs.len();
    let mut a: usize = 0;
    while a < n && white_space(cs[a])
        invariant
            cs@ == s@,
            n == cs@.len(),
            a <= n,
            forall|i: int| 0 <= i < a ==> is_white_space(#[trigger] s@[i]),
        decreases n - a,
    {
        a += 1;
    }
    let mut b: usize = n;
    while b > a && white_space(cs[b - 1])
        invariant
            cs@ == s@,
            n == cs@.len(),
            a <= b <= n,
            forall|i: int| b <= i < n ==> is_white_space(#[trigger] s@[i]),
        decreases b,
    {
        b -= 1;
    }
    (a, b)
}

/// What `trim_bounds` delimits is `trimmed`.
pub proof fn lemma_trimmed(s: Seq<char>, a: int, b: int)
    requires
        trim_bounds(s, a, b),
    ensures
        s.subrange(a, b) == trimmed(s),
{
    let (a2, b2) = choose|a2: int, b2: int| trim_bounds(s, a2, b2);
    lemma_trim_unique(s, a, b, a2, b2);
}

/// `s` without its leading and trailing white space.
pub fn trim(s: &str) -> (r: &str)
    ensures
        r@ == trimmed(s@),
{
    let (a, b) = trim_span(s);
    proof {
        lemma_trimmed(s@, a as int, b as int);
    }
    s.substring_char(a, b)
}

/// Sets the default severity to `annotation_type` for documents whose
/// preamble field `name` holds `value` (white space around it aside).
pub struct SetDefaultAnnotation {
    pub name: String,
    pub value: String,
    pub annotation_type: AnnotationTypeDef,
}

impl SetDefaultAnnotation {
    /// The settings after this modifier, for a document with `preamble`.
    pub open spec fn modified(self, preamble: Seq<crate::document::Field>, s: LintSettings) -> LintSettings {
        match first_field(preamble, self.name@) {
            Some(i) => if trimmed(preamble[i].value@) == self.value@ {
                LintSettings { default_annotation_type: self.annotation_type }
            } else {
                s
            },
            None => s,
        }
    }

    /// Applies this modifier to the settings of the document `ctx`. Only the
    /// first field named `name` counts.
    pub fn modify(&self, ctx: &Context, settings: &mut LintSettings)
        ensures
            *final(settings) == self.modified(ctx.preamble@, *old(settings)),
    {
        match ctx.by_name(self.name.as_str()) {
            None => {},
            Some(field) => {
                if text_eq(trim(field.value.as_str()), self.value.as_str()) {
                    settings.default_annotation_type = self.annotation_type;
                }
            },
        }
    }
}

/// The settings after each of `mods`, in order, for a document with `preamble`.
pub open spec fn all_modified(
    mods: Seq<SetDefaultAnnotation>,
    preamble: Seq<crate::document::Field>,
    s: LintSettings,
) -> LintSettings
    decreases mods.len(),
{
    if mods.len() == 0 {
        s
    } else {
        mods.last().modified(preamble, all_modified(mods.drop_last(), preamble, s))
    }
}

/// A modifier sets the default severity of a document whose first field
/// `name` holds `value` (white space around it aside), and leaves that of any
/// other document as it was.
pub proof fn lemma_modifier_decides(m: SetDefaultAnnotation, preamble: Seq<crate::document::Field>, s: LintSettings)
    ensures
        (match first_field(preamble, m.name@) {
            Some(i) => trimmed(preamble[i].value@) == m.value@,
            None => false,
        }) ==> m.modified(preamble, s).default_annotation_type == m.annotation_type,
        !(match first_field(preamble, m.name@) {
            Some(i) => trimmed(preamble[i].value@) == m.value@,
            None => false,
        }) ==> m.modified(preamble, s) == s,
{
}

} // verus!
