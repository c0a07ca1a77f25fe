//! The rule that keeps a body's sections to a listed set, in the listed order.
use vstd::prelude::*;
use crate::severity::AnnotationTypeDef;
use crate::diagnostic::{Annotation, Slice, Snippet, annotation_is, clone_text_opt};
use crate::document::{Context, line_text, line_at};
use crate::markdown::{markdown_headings, parse_headings};

verus! {

/// A level-two heading of the body: its 1-based line and its text.
pub struct Heading {
    pub line: usize,
    pub text: String,
}

impl View for Heading {
    type V = (usize, Seq<char>);

    open spec fn view(&self) -> (usize, Seq<char>) {
        (self.line, self.text@)
    }
}

/// The line and text of each heading.
pub open spec fn heading_views(hs: Seq<Heading>) -> Seq<(usize, Seq<char>)> {
    hs.map_values(|h: Heading| h@)
}

/// Requires that the body's level-two headings be among the listed section
/// names, and that they appear in the listed order.
pub struct SectionOrder(pub Vec<String>);

/// `name` is one of `sections`.
pub open spec fn is_section(sections: Seq<String>, name: Seq<char>) -> bool {
    exists|i: int| 0 <= i < sections.len() && #[trigger] sections[i]@ == name
}

/// The headings of `hs` that name no listed section, in document order.
pub open spec fn extra_headings(sections: Seq<String>, hs: Seq<(usize, Seq<char>)>) -> Seq<(usize, Seq<char>)>
    decreases hs.len(),
{
    if hs.len() == 0 {
        Seq::empty()
    } else {
        let rest = extra_headings(sections, hs.drop_last());
        if is_section(sections, hs.last().1) {
            rest
        } else {
            rest.push(hs.last())
        }
    }
}

/// The line of the last heading of `hs` titled `name`.
pub open spec fn section_line(hs: Seq<(usize, Seq<char>)>, name: Seq<char>) -> Option<usize>
    decreases hs.len(),
{
    if hs.len() == 0 {
        None
    } else if hs.last().1 == name {
        Some(hs.last().0)
    } else {
        section_line(hs.drop_last(), name)
    }
}

/// After the first `k` listed sections: the greatest line reached so far, and
/// the index of the section that reached it (`-1` before any).
pub open spec fn running_max(sections: Seq<String>, hs: Seq<(usize, Seq<char>)>, k: int) -> (usize, int)
    decreases k,
{
    if k <= 0 {
        (0, -1)
    } else {
        let prev = running_max(sections, hs, k - 1);
        match section_line(hs, sections[k - 1]@) {
            Some(l) => if l >= prev.0 {
                (l, k - 1)
            } else {
                prev
            },
            None => prev,
        }
    }
}

/// Among the first `k` listed sections, those whose heading stands above the
/// running maximum: the index of the section, the index of the section it must
/// follow, and the heading's line.
pub open spec fn misplaced(sections: Seq<String>, hs: Seq<(usize, Seq<char>)>, k: int) -> Seq<(int, int, usize)>
    decreases k,
{
    if k <= 0 {
        Seq::empty()
    } else {
        let prev = running_max(sections, hs, k - 1);
        let rest = misplaced(sections, hs, k - 1);
        match section_line(hs, sections[k - 1]@) {
            Some(l) => if l >= prev.0 {
                rest
            } else {
                rest.push((k - 1, prev.1, l))
            },
            None => rest,
        }
    }
}

pub open spec fn extra_label() -> Seq<char> {
    "body has extra section(s)"@
}

pub open spec fn after_label(name: Seq<char>, prev: Seq<char>) -> Seq<char> {
    "section `"@ + name + "` must come after `"@ + prev + "`"@
}

/// `s` shows line `n` of the document, unannotated.
pub open spec fn is_line_slice(s: Slice, origin: Option<String>, lines: Seq<String>, n: usize) -> bool {
    &&& s.line_start == n
    &&& s.source@ == line_text(lines, n)
    &&& s.origin == origin
    &&& !s.fold
    &&& s.annotations@.len() == 0
}

/// `d` reports the headings `extras` as sections that are not listed.
pub open spec fn is_extra_report(
    d: Snippet,
    slug: Seq<char>,
    origin: Option<String>,
    lines: Seq<String>,
    extras: Seq<(usize, Seq<char>)>,
) -> bool {
    &&& annotation_is(d.title, slug, AnnotationTypeDef::Error, extra_label())
    &&& d.footer@.len() == 0
    &&& d.slices@.len() == extras.len()
    &&& forall|k: int|
        0 <= k < extras.len() ==> is_line_slice(#[trigger] d.slices@[k], origin, lines, extras[k].0)
}

/// `d` reports the misplaced section `m`.
pub open spec fn is_order_report(
    d: Snippet,
    slug: Seq<char>,
    origin: Option<String>,
    lines: Seq<String>,
    sections: Seq<String>,
    m: (int, int, usize),
) -> bool {
    &&& annotation_is(d.title, slug, AnnotationTypeDef::Error, after_label(sections[m.0]@, sections[m.1]@))
    &&& d.footer@.len() == 0
    &&& d.slices@.len() == 1
    &&& is_line_slice(d.slices@[0], origin, lines, m.2)
}

/// What the rule reports for the headings `hs`: one diagnostic on all extra
/// sections (if there is any), then one per misplaced section.
pub open spec fn section_reports(
    sections: Seq<String>,
    slug: Seq<char>,
    origin: Option<String>,
    lines: Seq<String>,
    hs: Seq<(usize, Seq<char>)>,
    r: Seq<Snippet>,
) -> bool {
    let extras = extra_headings(sections, hs);
    let off: int = if extras.len() == 0 { 0 } else { 1 };
    let mis = misplaced(sections, hs, sections.len() as int);
    &&& r.len() == off + mis.len()
    &&& extras.len() > 0 ==> is_extra_report(r[0], slug, origin, lines, extras)
    &&& forall|j: int|
        #![trigger mis[j]]
        0 <= j < mis.len() ==> is_order_report(r[off + j], slug, origin, lines, sections, mis[j])
}

/// Line `l` of a body that follows `offset` lines of the document, as a line
/// of the document.
pub open spec fn doc_line(offset: usize, l: usize) -> usize {
    if offset + l > usize::MAX {
        usize::MAX
    } else {
        (offset + l) as usize
    }
}

/// The pieces of `ps`, one after another.
pub open spec fn joined(ps: Seq<Seq<char>>) -> Seq<char>
    decreases ps.len(),
{
    if ps.len() == 0 {
        Seq::empty()
    } else {
        joined(ps.drop_last()) + ps.last()
    }
}

/// The pieces of `ps`, one after another.
pub fn join(ps: &Vec<String>) -> (r: String)
    ensures
        r@ == joined(ps.deep_view()),
{
    let ghost dv = ps.deep_view();
    let mut out = String::new();
    let mut i: usize = 0;
    while i < ps.len()
        invariant
            i <= ps@.len(),
            dv == ps.deep_view(),
            dv.len() == ps@.len(),
            out@ == joined(dv.subrange(0, i as int)),
        decreases ps@.len() - i,
    {
        proof {
            assert(dv.subrange(0, i + 1).drop_last() =~= dv.subrange(0, i as int));
            assert(dv[i as int] == ps@[i as int]@);
        }
        out.append(ps[i].as_str());
        i += 1;
    }
    proof {
        assert(dv.subrange(0, i as int) =~= dv);
    }
    out
}

/// The level-two headings among `raw`, placed in the document, each with its
/// text nodes joined.
pub open spec fn level_two(raw: Seq<(u8, usize, Seq<Seq<char>>)>, offset: usize) -> Seq<(usize, Seq<char>)>
    decreases raw.len(),
{
    if raw.len() == 0 {
        Seq::empty()
    } else {
        let rest = level_two(raw.drop_last(), offset);
        if raw.last().0 == 2 {
            rest.push((doc_line(offset, raw.last().1), joined(raw.last().2)))
        } else {
            rest
        }
    }
}

/// The level-two headings of `raw`, placed in a document where the body
/// follows `offset` lines.
pub fn level_two_headings(raw: &Vec<(u8, usize, Vec<String>)>, offset: usize) -> (r: Vec<Heading>)
    ensures
        heading_views(r@) == level_two(raw.deep_view(), offset),
{
    let ghost dv = raw.deep_view();
    let mut out: Vec<Heading> = Vec::new();
    let mut i: usize = 0;
    while i < raw.len()
        invariant
            i <= raw@.len(),
            dv == raw.deep_view(),
            dv.len() == raw@.len(),
            heading_views(out@) == level_two(dv.subrange(0, i as int), offset),
        decreases raw@.len() - i,
    {
        proof {
            assert(dv.subrange(0, i + 1).drop_last() =~= dv.subrange(0, i as int));
            assert(dv[i as int] == (raw@[i as int].0, raw@[i as int].1, raw@[i as int].2.deep_view()));
        }
        if raw[i].0 == 2 {
            let ghost before = out@;
            out.push(Heading { line: offset.saturating_add(raw[i].1), text: join(&raw[i].2) });
            proof {
                assert(heading_views(out@) =~= heading_views(before).push(out@.last()@));
            }
        }
        i += 1;
    }
    proof {
        assert(dv.subrange(0, i as int) =~= dv);
    }
    out
}

/// The line of the last heading of `hs` titled `name`.
pub fn find_section_line(hs: &Vec<Heading>, name: &String) -> (r: Option<usize>)
    ensures
        r == section_line(heading_views(hs@), name@),
{
    let ghost v = heading_views(hs@);
    let mut j: usize = hs.len();
    proof {
        assert(v.subrange(0, j as int) =~= v);
    }
    while j > 0
        invariant
            j <= hs@.len(),
            v == heading_views(hs@),
            section_line(v, name@) == section_line(v.subrange(0, j as int), name@),
        decreases j,
    {
        proof {
            assert(v.subrange(0, j as int).drop_last() =~= v.subrange(0, j - 1));
        }
        if hs[j - 1].text == *name {
            return Some(hs[j - 1].line);
        }
        j -= 1;
    }
    None
}

fn line_slice(origin: &Option<String>, lines: &Vec<String>, n: usize) -> (r: Slice)
    ensures
        is_line_slice(r, *origin, lines@, n),
{
    Slice {
        source: line_at(lines, n),
        line_start: n,
        origin: clone_text_opt(origin),
        annotations: Vec::new(),
        fold: false,
    }
}

impl SectionOrder {
    /// Whether `name` is one of the listed sections.
    pub fn has_section(&self, name: &String) -> (r: bool)
        ensures
            r == is_section(self.0@, name@),
    {
        let mut i: usize = 0;
        while i < self.0.len()
            invariant
                i <= self.0@.len(),
                forall|k: int| 0 <= k < i ==> self.0@[k]@ != name@,
            decreases self.0@.len() - i,
        {
            if self.0[i] == *name {
                return true;
            }
            i += 1;
        }
        false
    }

    /// The diagnostics of this rule, named `slug`, for the document `ctx`:
    /// those of [`SectionOrder::check`] on the level-two headings of its body.
    pub fn lint(&self, slug: &str, ctx: &Context) -> (r: Vec<Snippet>)
        ensures
            section_reports(
                self.0@,
                slug@,
                ctx.origin,
                ctx.lines@,
                level_two(markdown_headings(ctx.body@), ctx.body_line),
                r@,
            ),
    {
        let raw = parse_headings(ctx.body.as_str());
        let headings = level_two_headings(&raw, ctx.body_line);
        self.check(slug, &ctx.origin, &ctx.lines, &headings)
    }

    /// The diagnostics of this rule, named `slug`, for a document whose lines
    /// are `lines` and whose level-two headings are `headings`.
    pub fn check(&self, slug: &str, origin: &Option<String>, lines: &Vec<String>, headings: &Vec<Heading>) -> (r: Vec<Snippet>)
        ensures
            section_reports(self.0@, slug@, *origin, lines@, heading_views(headings@), r@),
            forall|k: int| 0 <= k < r@.len() ==> (#[trigger] r@[k]).wf(),
    {
        let ghost sections = self.0@;
        let ghost hs = heading_views(headings@);
        let mut out: Vec<Snippet> = Vec::new();

        let mut extras: Vec<Slice> = Vec::new();
        let mut i: usize = 0;
        while i < headings.len()
            invariant
                i <= hs.len(),
                hs == heading_views(headings@),
                sections == self.0@,
                extras@.len() == extra_headings(sections, hs.subrange(0, i as int)).len(),
                forall|k: int|
                    0 <= k < extras@.len() ==> is_line_slice(
                        #[trigger] extras@[k],
                        *origin,
                        lines@,
                        extra_headings(sections, hs.subrange(0, i as int))[k].0,
                    ),
            decreases hs.len() - i,
        {
            proof {
                assert(hs.subrange(0, i + 1).drop_last() =~= hs.subrange(0, i as int));
                assert(hs.subrange(0, i + 1).last() == hs[i as int]);
            }
            let ghost before = extra_headings(sections, hs.subrange(0, i as int));
            let ghost now = extra_headings(sections, hs.subrange(0, i + 1));
            if !self.has_section(&headings[i].text) {
                extras.push(line_slice(origin, lines, headings[i].line));
                proof {
                    assert(now == before.push(hs[i as int]));
                    assert forall|k: int| 0 <= k < extras@.len() implies is_line_slice(
                        #[trigger] extras@[k], *origin, lines@, now[k].0,
                    ) by {
                        if k < before.len() {
                            assert(now[k] == before[k]);
                        }
                    }
                }
            } else {
                assert(now == before);
            }
            i += 1;
        }
        proof {
            assert(hs.subrange(0, hs.len() as int) =~= hs);
        }
        if extras.len() > 0 {
            out.push(Snippet {
                title: Annotation {
                    id: Some(String::from_str(slug)),
                    annotation_type: AnnotationTypeDef::Error,
                    label: String::from_str("body has extra section(s)"),
                },
                footer: Vec::new(),
                slices: extras,
            });
        }
        let ghost off: int = out@.len() as int;

        let mut max_line: usize = 0;
        let mut holder: usize = 0;
        let mut k: usize = 0;
        while k < self.0.len()
            invariant
                k <= sections.len(),
                sections == self.0@,
                hs == heading_views(headings@),
                off == (if extra_headings(sections, hs).len() == 0 { 0int } else { 1int }),
                extra_headings(sections, hs).len() > 0 ==> is_extra_report(
                    out@[0],
                    slug@,
                    *origin,
                    lines@,
                    extra_headings(sections, hs),
                ),
                out@.len() == off + misplaced(sections, hs, k as int).len(),
                forall|j: int|
                    #![trigger misplaced(sections, hs, k as int)[j]]
                    0 <= j < misplaced(sections, hs, k as int).len() ==> is_order_report(
                        out@[off + j],
                        slug@,
                        *origin,
                        lines@,
                        sections,
                        misplaced(sections, hs, k as int)[j],
                    ),
                running_max(sections, hs, k as int).0 == max_line,
                max_line > 0 ==> running_max(sections, hs, k as int).1 == holder as int,
                max_line > 0 ==> holder < k,
            decreases sections.len() - k,
        {
            let ghost before = misplaced(sections, hs, k as int);
            match find_section_line(headings, &self.0[k]) {
                Some(l) => {
                    if l >= max_line {
                        max_line = l;
                        holder = k;
                    } else {
                        let mut label = String::from_str("section `");
                        label.append(self.0[k].as_str());
                        label.append("` must come after `");
                        label.append(self.0[holder].as_str());
                        label.append("`");
                        let mut slices: Vec<Slice> = Vec::new();
                        slices.push(line_slice(origin, lines, l));
                        out.push(Snippet {
                            title: Annotation {
                                id: Some(String::from_str(slug)),
                                annotation_type: AnnotationTypeDef::Error,
                                label,
                            },
                            footer: Vec::new(),
                            slices,
                        });
                        proof {
                            let now = misplaced(sections, hs, k + 1);
                            assert(now == before.push((k as int, holder as int, l)));
                            assert forall|j: int| #![trigger now[j]] 0 <= j < now.len() implies is_order_report(
                                out@[off + j], slug@, *origin, lines@, sections, now[j],
                            ) by {
                                if j < before.len() {
                                    assert(before[j] == now[j]);
                                }
                            }
                        }
                    }
                },
                None => {},
            }
            k += 1;
        }
        proof {
            let extras = extra_headings(sections, hs);
            let mis = misplaced(sections, hs, sections.len() as int);
            assert forall|q: int| 0 <= q < out@.len() implies (#[trigger] out@[q]).wf() by {
                if extras.len() > 0 && q == 0 {
                    assert forall|i: int| 0 <= i < out@[q].slices@.len() implies (#[trigger] out@[q].slices@[i]).wf() by {
                        assert(is_line_slice(out@[q].slices@[i], *origin, lines@, extras[i].0));
                    }
                } else {
                    assert(is_order_report(out@[off + (q - off)], slug@, *origin, lines@, sections, mis[q - off]));
                    assert(out@[q].slices@[0].wf());
                }
            }
        }
        out
    }
}

/// The listed section names are pairwise distinct.
pub open spec fn distinct_sections(sections: Seq<String>) -> bool {
    forall|a: int, b: int|
        0 <= a < sections.len() && 0 <= b < sections.len() && a != b ==> #[trigger] sections[a]@
            != #[trigger] sections[b]@
}

proof fn lemma_no_extras(sections: Seq<String>, hs: Seq<(usize, Seq<char>)>)
    requires
        forall|k: int| 0 <= k < hs.len() ==> is_section(sections, #[trigger] hs[k].1),
    ensures
        extra_headings(sections, hs).len() == 0,
    decreases hs.len(),
{
    if hs.len() > 0 {
        let d = hs.drop_last();
        assert forall|k: int| 0 <= k < d.len() implies is_section(sections, #[trigger] d[k].1) by {
            assert(d[k] == hs[k]);
        }
        lemma_no_extras(sections, d);
    }
}

proof fn lemma_line_of_unique(hs: Seq<(usize, Seq<char>)>, name: Seq<char>, k: int)
    requires
        0 <= k < hs.len(),
        hs[k].1 == name,
        forall|j: int| 0 <= j < hs.len() && j != k ==> #[trigger] hs[j].1 != name,
    ensures
        section_line(hs, name) == Some(hs[k].0),
    decreases hs.len(),
{
    if k != hs.len() - 1 {
        let d = hs.drop_last();
        assert forall|j: int| 0 <= j < d.len() && j != k implies #[trigger] d[j].1 != name by {
            assert(d[j] == hs[j]);
        }
        lemma_line_of_unique(d, name, k);
    }
}

proof fn lemma_line_of_absent(hs: Seq<(usize, Seq<char>)>, name: Seq<char>)
    requires
        forall|j: int| 0 <= j < hs.len() ==> #[trigger] hs[j].1 != name,
    ensures
        section_line(hs, name) is None,
    decreases hs.len(),
{
    if hs.len() > 0 {
        let d = hs.drop_last();
        assert forall|j: int| 0 <= j < d.len() implies #[trigger] d[j].1 != name by {
            assert(d[j] == hs[j]);
        }
        lemma_line_of_absent(d, name);
    }
}

proof fn lemma_sorted_nothing_misplaced(sections: Seq<String>, hs: Seq<(usize, Seq<char>)>, k: int)
    requires
        0 <= k <= sections.len(),
        forall|a: int, b: int|
            #![trigger section_line(hs, sections[a]@), section_line(hs, sections[b]@)]
            0 <= a < b < sections.len() && section_line(hs, sections[a]@) is Some && section_line(
                hs,
                sections[b]@,
            ) is Some ==> section_line(hs, sections[a]@)->0 <= section_line(hs, sections[b]@)->0,
    ensures
        misplaced(sections, hs, k).len() == 0,
        forall|a: int|
            #![trigger section_line(hs, sections[a]@)]
            0 <= a < k && section_line(hs, sections[a]@) is Some ==> section_line(hs, sections[a]@)->0
                <= running_max(sections, hs, k).0,
        running_max(sections, hs, k).0 > 0 ==> exists|a: int|
            0 <= a < k && #[trigger] section_line(hs, sections[a]@) == Some(running_max(sections, hs, k).0),
    decreases k,
{
    if k > 0 {
        lemma_sorted_nothing_misplaced(sections, hs, k - 1);
        let prev = running_max(sections, hs, k - 1);
        match section_line(hs, sections[k - 1]@) {
            Some(l) => {
                if prev.0 > 0 {
                    let a = choose|a: int|
                        0 <= a < k - 1 && #[trigger] section_line(hs, sections[a]@) == Some(prev.0);
                    assert(section_line(hs, sections[a]@)->0 <= section_line(hs, sections[k - 1]@)->0);
                }
                assert(section_line(hs, sections[k - 1]@) == Some(running_max(sections, hs, k).0));
            },
            None => {},
        }
    }
}

/// When each listed section heads the body exactly once (a name listed twice
/// counts once), the body has no other level-two heading, and the headings
/// follow the listed order, the rule reports nothing.
pub proof fn lemma_in_order_reports_nothing(
    sections: Seq<String>,
    slug: Seq<char>,
    origin: Option<String>,
    lines: Seq<String>,
    hs: Seq<(usize, Seq<char>)>,
    r: Seq<Snippet>,
)
    requires
        forall|j1: int, j2: int| 0 <= j1 < j2 < hs.len() ==> #[trigger] hs[j1].1 != #[trigger] hs[j2].1,
        forall|j: int| 0 <= j < hs.len() ==> is_section(sections, #[trigger] hs[j].1),
        forall|a: int|
            #![trigger sections[a]]
            0 <= a < sections.len() ==> exists|j: int| 0 <= j < hs.len() && #[trigger] hs[j].1 == sections[a]@,
        forall|a: int, b: int, j1: int, j2: int|
            0 <= a < b < sections.len() && 0 <= j1 < hs.len() && 0 <= j2 < hs.len() && #[trigger] hs[j1].1
                == #[trigger] sections[a]@ && #[trigger] hs[j2].1 == #[trigger] sections[b]@ ==> hs[j1].0
                <= hs[j2].0,
        section_reports(sections, slug, origin, lines, hs, r),
    ensures
        r.len() == 0,
{
    lemma_no_extras(sections, hs);
    assert forall|a: int, b: int|
        #![trigger section_line(hs, sections[a]@), section_line(hs, sections[b]@)]
        0 <= a < b < sections.len() && section_line(hs, sections[a]@) is Some && section_line(
            hs,
            sections[b]@,
        ) is Some implies section_line(hs, sections[a]@)->0 <= section_line(hs, sections[b]@)->0 by {
        let j1 = choose|j: int| 0 <= j < hs.len() && #[trigger] hs[j].1 == sections[a]@;
        let j2 = choose|j: int| 0 <= j < hs.len() && #[trigger] hs[j].1 == sections[b]@;
        assert forall|j: int| 0 <= j < hs.len() && j != j1 implies #[trigger] hs[j].1 != sections[a]@ by {
            if j < j1 {
                assert(hs[j].1 != hs[j1].1);
            } else {
                assert(hs[j1].1 != hs[j].1);
            }
        }
        assert forall|j: int| 0 <= j < hs.len() && j != j2 implies #[trigger] hs[j].1 != sections[b]@ by {
            if j < j2 {
                assert(hs[j].1 != hs[j2].1);
            } else {
                assert(hs[j2].1 != hs[j].1);
            }
        }
        lemma_line_of_unique(hs, sections[a]@, j1);
        lemma_line_of_unique(hs, sections[b]@, j2);
        assert(hs[j1].0 <= hs[j2].0);
    }
    lemma_sorted_nothing_misplaced(sections, hs, sections.len() as int);
}

proof fn lemma_swapped_prefix(sections: Seq<String>, hs: Seq<(usize, Seq<char>)>, i: int, j: int, k: int)
    requires
        distinct_sections(sections),
        0 <= i < j < sections.len(),
        0 <= k <= sections.len(),
        hs.len() == 2,
        hs[0].1 == sections[j]@,
        hs[1].1 == sections[i]@,
        hs[0].0 < hs[1].0,
    ensures
        running_max(sections, hs, k) == (if k <= i { (0usize, -1int) } else { (hs[1].0, i) }),
        misplaced(sections, hs, k) == (if k <= j { Seq::<(int, int, usize)>::empty() } else { seq![(j, i, hs[0].0)] }),
    decreases k,
{
    if k > 0 {
        lemma_swapped_prefix(sections, hs, i, j, k - 1);
        let name = sections[k - 1]@;
        if k - 1 == i {
            assert(hs[0].1 != name);
            lemma_line_of_unique(hs, name, 1);
        } else if k - 1 == j {
            assert(hs[1].1 != name);
            lemma_line_of_unique(hs, name, 0);
            assert(Seq::<(int, int, usize)>::empty().push((j, i, hs[0].0)) =~= seq![(j, i, hs[0].0)]);
        } else {
            assert(hs[0].1 != name);
            assert(hs[1].1 != name);
            lemma_line_of_absent(hs, name);
        }
    }
}

/// When the body holds two listed sections, the later-listed one on an
/// earlier line, the rule reports exactly one diagnostic: that the later-listed
/// section must come after the earlier-listed one.
pub proof fn lemma_swapped_pair_reported_once(
    sections: Seq<String>,
    slug: Seq<char>,
    origin: Option<String>,
    lines: Seq<String>,
    hs: Seq<(usize, Seq<char>)>,
    i: int,
    j: int,
    r: Seq<Snippet>,
)
    requires
        distinct_sections(sections),
        0 <= i < j < sections.len(),
        hs.len() == 2,
        hs[0].1 == sections[j]@,
        hs[1].1 == sections[i]@,
        hs[0].0 < hs[1].0,
        section_reports(sections, slug, origin, lines, hs, r),
    ensures
        r.len() == 1,
        annotation_is(r[0].title, slug, AnnotationTypeDef::Error, after_label(sections[j]@, sections[i]@)),
        r[0].slices@.len() == 1,
        is_line_slice(r[0].slices@[0], origin, lines, hs[0].0),
{
    assert forall|k: int| 0 <= k < hs.len() implies is_section(sections, #[trigger] hs[k].1) by {
        if k == 0 {
            assert(sections[j]@ == hs[k].1);
        } else {
            assert(sections[i]@ == hs[k].1);
        }
    }
    lemma_no_extras(sections, hs);
    lemma_swapped_prefix(sections, hs, i, j, sections.len() as int);
    let mis = misplaced(sections, hs, sections.len() as int);
    assert(mis[0] == (j, i, hs[0].0));
}

proof fn lemma_nothing_misplaced_means_sorted(sections: Seq<String>, hs: Seq<(usize, Seq<char>)>, k: int)
    requires
        0 <= k <= sections.len(),
        misplaced(sections, hs, k).len() == 0,
    ensures
        forall|a: int|
            #![trigger section_line(hs, sections[a]@)]
            0 <= a < k && section_line(hs, sections[a]@) is Some ==> section_line(hs, sections[a]@)->0
                <= running_max(sections, hs, k).0,
        forall|a: int, b: int|
            #![trigger section_line(hs, sections[a]@), section_line(hs, sections[b]@)]
            0 <= a < b < k && section_line(hs, sections[a]@) is Some && section_line(hs, sections[b]@) is Some
                ==> section_line(hs, sections[a]@)->0 <= section_line(hs, sections[b]@)->0,
    decreases k,
{
    if k > 0 {
        let prev = running_max(sections, hs, k - 1);
        match section_line(hs, sections[k - 1]@) {
            Some(l) => {
                if l < prev.0 {
                    assert(misplaced(sections, hs, k).len() > 0);
                }
            },
            None => {},
        }
        lemma_nothing_misplaced_means_sorted(sections, hs, k - 1);
    }
}

/// When a later-listed section's heading stands above an earlier-listed
/// one's, the rule reports at least one section as misplaced.
pub proof fn lemma_inversion_reported(
    sections: Seq<String>,
    slug: Seq<char>,
    origin: Option<String>,
    lines: Seq<String>,
    hs: Seq<(usize, Seq<char>)>,
    a: int,
    b: int,
    r: Seq<Snippet>,
)
    requires
        0 <= a < b < sections.len(),
        section_line(hs, sections[a]@) is Some,
        section_line(hs, sections[b]@) is Some,
        section_line(hs, sections[b]@)->0 < section_line(hs, sections[a]@)->0,
        section_reports(sections, slug, origin, lines, hs, r),
    ensures
        misplaced(sections, hs, sections.len() as int).len() > 0,
        exists|j: int| 0 <= j < r.len() && #[trigger] r[j].title.label@ == after_label(
            sections[misplaced(sections, hs, sections.len() as int)[0].0]@,
            sections[misplaced(sections, hs, sections.len() as int)[0].1]@,
        ),
{
    let n = sections.len() as int;
    if misplaced(sections, hs, n).len() == 0 {
        lemma_nothing_misplaced_means_sorted(sections, hs, n);
        assert(section_line(hs, sections[a]@)->0 <= section_line(hs, sections[b]@)->0);
    }
    let mis = misplaced(sections, hs, n);
    let extras = extra_headings(sections, hs);
    let off: int = if extras.len() == 0 { 0 } else { 1 };
    assert(is_order_report(r[off + 0], slug, origin, lines, sections, mis[0]));
    assert(r[off].title.label@ == after_label(sections[mis[0].0]@, sections[mis[0].1]@));
}

} // verus!
