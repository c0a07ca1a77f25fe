//! The status-flow rule: a proposal may only require proposals that are at
//! least as far along the flow of statuses as itself.
use vstd::prelude::*;
use crate::severity::text_eq;
use crate::diagnostic::{Annotation, SourceAnnotation, Slice, Snippet, annotation_is, clone_text_opt};
use crate::document::{Context, Field, ParseError, first_field, line_text, line_at, split, split_on, piece_starts, chars_of, parse_result};
use crate::modifier::{trim, trimmed, trim_span, trim_bounds};

verus! {

/// Checks the statuses of the proposals that the field `requires` names.
/// Each named proposal is found at `prefix + name + suffix`; `flow` ranks the
/// values of the field `status`, least advanced first.
pub struct RequiresStatus {
    pub requires: String,
    pub status: String,
    pub flow: Vec<Vec<String>>,
    pub prefix: String,
    pub suffix: String,
}

/// One proposal named in the `requires` field: its name, where to fetch it,
/// and where the name stands (1-based line, character range in that line).
pub struct Reference {
    pub name: String,
    pub path: String,
    pub line: usize,
    pub range: (usize, usize),
}

/// Why a proposal could not be fetched.
#[derive(Debug, Clone, Copy, PartialEq, Eq, Structural)]
pub enum FetchError {
    NotFound,
    Unreadable,
}

/// Rank `k` of `flow` holds the status `s`.
pub open spec fn in_rank(flow: Seq<Vec<String>>, k: int, s: Seq<char>) -> bool {
    exists|j: int| 0 <= j < flow[k]@.len() && #[trigger] flow[k]@[j]@ == s
}

/// The first rank of `flow` that holds `s`.
pub open spec fn rank_of(flow: Seq<Vec<String>>, s: Seq<char>) -> Option<int>
    decreases flow.len(),
{
    if flow.len() == 0 {
        None
    } else {
        match rank_of(flow.drop_last(), s) {
            Some(k) => Some(k),
            None => if in_rank(flow, flow.len() - 1, s) {
                Some(flow.len() - 1)
            } else {
                None
            },
        }
    }
}

/// The rank of the status that the first field `field` of `preamble` holds.
pub open spec fn status_rank(flow: Seq<Vec<String>>, preamble: Seq<Field>, field: Seq<char>) -> Option<int> {
    match first_field(preamble, field) {
        Some(i) => rank_of(flow, trimmed(preamble[i].value@)),
        None => None,
    }
}

/// Where the value `v` starts in a line of length `n` that it ends.
pub open spec fn value_start(n: int, v: int) -> int {
    if v <= n {
        n - v
    } else {
        0
    }
}

/// `r` is the reference that the piece `p`, at `start` in the value of the
/// field `f` on the line `line`, makes.
pub open spec fn is_reference(
    r: Reference,
    prefix: Seq<char>,
    suffix: Seq<char>,
    line: Seq<char>,
    f: Field,
    p: Seq<char>,
    start: int,
) -> bool {
    exists|a: int, b: int|
        #![trigger trim_bounds(p, a, b)]
        {
            let vs = value_start(line.len() as int, f.value@.len() as int);
            &&& trim_bounds(p, a, b)
            &&& r.name@ == p.subrange(a, b)
            &&& r.range == ((vs + start + a) as usize, (vs + start + b) as usize)
        } && r.path@ == prefix + r.name@ + suffix && r.line == f.line
}

/// The statuses of ranks `0` to `t` of `flow`, in order.
pub open spec fn statuses_upto(flow: Seq<Vec<String>>, t: int) -> Seq<Seq<char>>
    decreases t + 1,
{
    if t < 0 {
        Seq::empty()
    } else {
        statuses_upto(flow, t - 1) + flow[t]@.map_values(|s: String| s@)
    }
}

/// `names`, each in backquotes, separated by commas.
pub open spec fn quoted_list(names: Seq<Seq<char>>) -> Seq<char>
    decreases names.len(),
{
    if names.len() == 0 {
        Seq::empty()
    } else if names.len() == 1 {
        "`"@ + names[0] + "`"@
    } else {
        quoted_list(names.drop_last()) + ", `"@ + names.last() + "`"@
    }
}

pub open spec fn not_found_label(name: Seq<char>) -> Seq<char> {
    "proposal `"@ + name + "` could not be found"@
}

pub open spec fn unreadable_label(name: Seq<char>) -> Seq<char> {
    "proposal `"@ + name + "` could not be read"@
}

pub open spec fn unparsable_label(name: Seq<char>) -> Seq<char> {
    "proposal `"@ + name + "` could not be parsed"@
}

pub open spec fn not_stable_label(requires: Seq<char>, status: Seq<char>, own: Seq<char>) -> Seq<char> {
    "preamble header `"@ + requires + "` contains items not stable enough for a `"@ + status + "` of `"@ + own
        + "`"@
}

pub open spec fn less_advanced_label() -> Seq<char> {
    "has a less advanced status"@
}

/// The rank and the (trimmed) text of the status that the first field
/// `field` of `preamble` holds, when the flow ranks it.
pub open spec fn status_of(flow: Seq<Vec<String>>, preamble: Seq<Field>, field: Seq<char>) -> Option<(usize, Seq<char>)> {
    match first_field(preamble, field) {
        Some(i) => match rank_of(flow, trimmed(preamble[i].value@)) {
            Some(k) => Some((k as usize, trimmed(preamble[i].value@))),
            None => None,
        },
        None => None,
    }
}

pub open spec fn own_view(o: Option<(usize, String)>) -> Option<(usize, Seq<char>)> {
    match o {
        Some(p) => Some((p.0, p.1@)),
        None => None,
    }
}

pub open spec fn valid_statuses_label(field: Seq<char>, names: Seq<Seq<char>>) -> Seq<char> {
    "valid `"@ + field + "` values for this proposal are: "@ + quoted_list(names)
}

/// `d` reports, under `label`, the reference `r` of the document `ctx`: one
/// slice, the reference's line, with the reference's range annotated under
/// `note`.
pub open spec fn is_reference_report(
    d: Snippet,
    slug: Seq<char>,
    ctx: Context,
    r: Reference,
    label: Seq<char>,
    note: Seq<char>,
) -> bool {
    let ty = ctx.settings.default_annotation_type;
    &&& annotation_is(d.title, slug, ty, label)
    &&& d.slices@.len() == 1
    &&& d.slices@[0].source@ == line_text(ctx.lines@, r.line)
    &&& d.slices@[0].line_start == r.line
    &&& d.slices@[0].origin == ctx.origin
    &&& !d.slices@[0].fold
    &&& d.slices@[0].annotations@.len() == 1
    &&& d.slices@[0].annotations@[0].range == r.range
    &&& d.slices@[0].annotations@[0].annotation_type == ty
    &&& d.slices@[0].annotations@[0].label@ == note
}

impl RequiresStatus {
    /// What the rule reports, under the name `slug`, on the reference `r` of
    /// `ctx` (whose status has the rank and text `own`), given what fetching
    /// it returned.
    pub open spec fn reference_outcome(
        self,
        slug: Seq<char>,
        ctx: Context,
        own: Option<(usize, Seq<char>)>,
        r: Reference,
        fetched: Result<String, FetchError>,
        o: Option<Snippet>,
    ) -> bool {
        match fetched {
            Err(FetchError::NotFound) => o is Some && is_reference_report(o->0, slug, ctx, r, not_found_label(r.name@), not_found_label(r.name@))
                && o->0.footer@.len() == 0,
            Err(FetchError::Unreadable) => o is Some && is_reference_report(o->0, slug, ctx, r, unreadable_label(r.name@), unreadable_label(r.name@))
                && o->0.footer@.len() == 0,
            Ok(text) => exists|pr: Result<Context, ParseError>|
                #![trigger parse_result(text@, Some(r.path), pr)]
                parse_result(text@, Some(r.path), pr) && match pr {
                    Err(_) => o is Some && is_reference_report(o->0, slug, ctx, r, unparsable_label(r.name@), unparsable_label(r.name@))
                        && o->0.footer@.len() == 0,
                    Ok(target) => match (own, status_rank(self.flow@, target.preamble@, self.status@)) {
                        (Some(mine), Some(t)) => if t < mine.0 as int {
                            &&& o is Some
                            &&& is_reference_report(
                                o->0,
                                slug,
                                ctx,
                                r,
                                not_stable_label(self.requires@, self.status@, mine.1),
                                less_advanced_label(),
                            )
                            &&& o->0.footer@.len() == 1
                            &&& o->0.footer@[0].id is None
                            &&& o->0.footer@[0].annotation_type == crate::severity::AnnotationTypeDef::Help
                            &&& o->0.footer@[0].label@ == valid_statuses_label(self.status@, statuses_upto(self.flow@, t))
                        } else {
                            o is None
                        },
                        _ => o is None,
                    },
                },
        }
    }

    /// `refs` are the proposals that the first `requires` field of `ctx`
    /// names, one per comma-separated piece of its value.
    pub open spec fn references_of(self, ctx: Context, refs: Seq<Reference>) -> bool {
        match first_field(ctx.preamble@, self.requires@) {
            None => refs.len() == 0,
            Some(i) => {
                let f = ctx.preamble@[i];
                let ps = split_on(f.value@, ',');
                &&& refs.len() == ps.len()
                &&& forall|k: int|
                    0 <= k < ps.len() ==> is_reference(
                        #[trigger] refs[k],
                        self.prefix@,
                        self.suffix@,
                        line_text(ctx.lines@, f.line),
                        f,
                        ps[k],
                        piece_starts(f.value@, ',')[k],
                    )
            },
        }
    }

    /// The rank of `s` in the flow.
    pub fn find_rank(&self, s: &str) -> (r: Option<usize>)
        ensures
            match r {
                Some(k) => rank_of(self.flow@, s@) == Some(k as int) && k < self.flow@.len(),
                None => rank_of(self.flow@, s@) is None,
            },
    {
        let ghost flow = self.flow@;
        let mut k: usize = 0;
        while k < self.flow.len()
            invariant
                k <= flow.len(),
                flow == self.flow@,
                rank_of(flow.subrange(0, k as int), s@) is None,
            decreases flow.len() - k,
        {
            proof {
                assert(flow.subrange(0, k + 1).drop_last() =~= flow.subrange(0, k as int));
            }
            let rank = &self.flow[k];
            let mut j: usize = 0;
            while j < rank.len()
                invariant
                    j <= rank@.len(),
                    k < flow.len(),
                    flow == self.flow@,
                    rank == flow[k as int],
                    rank_of(flow.subrange(0, k as int), s@) is None,
                    forall|q: int| 0 <= q < j ==> rank@[q]@ != s@,
                decreases rank@.len() - j,
            {
                if text_eq(rank[j].as_str(), s) {
                    proof {
                        assert(flow.subrange(0, k + 1)[k as int] == flow[k as int]);
                        assert(in_rank(flow.subrange(0, k + 1), k as int, s@));
                        assert(flow.subrange(0, k + 1).drop_last() =~= flow.subrange(0, k as int));
                        assert(rank_of(flow.subrange(0, k + 1), s@) == Some(k as int));
                        lemma_rank_prefix(flow, s@, k + 1);
                    }
                    return Some(k);
                }
                j += 1;
            }
            proof {
                assert(flow.subrange(0, k + 1)[k as int] == flow[k as int]);
                assert(!in_rank(flow.subrange(0, k + 1), k as int, s@));
            }
            k += 1;
        }
        proof {
            assert(flow.subrange(0, k as int) =~= flow);
        }
        None
    }

    /// The rank of the status of the document `ctx`.
    pub fn own_rank(&self, ctx: &Context) -> (r: Option<usize>)
        ensures
            match r {
                Some(k) => status_rank(self.flow@, ctx.preamble@, self.status@) == Some(k as int),
                None => status_rank(self.flow@, ctx.preamble@, self.status@) is None,
            },
    {
        match ctx.by_name(self.status.as_str()) {
            Some(f) => self.find_rank(trim(f.value.as_str())),
            None => None,
        }
    }

    /// The proposals that the first `requires` field of `ctx` names, one per
    /// comma-separated piece of its value.
    pub fn references(&self, ctx: &Context) -> (r: Vec<Reference>)
        ensures
            self.references_of(*ctx, r@),
    {
        let mut out: Vec<Reference> = Vec::new();
        let f = match ctx.by_name(self.requires.as_str()) {
            Some(f) => f,
            None => return out,
        };
        let line = line_at(&ctx.lines, f.line);
        let ll = line.as_str().unicode_len();
        let vl = f.value.as_str().unicode_len();
        let vs = if vl <= ll { ll - vl } else { 0 };
        let chars = chars_of(f.value.as_str());
        let (pieces, starts) = split(f.value.as_str(), &chars, ',');
        let ghost ps = split_on(f.value@, ',');
        let mut k: usize = 0;
        while k < pieces.len()
            invariant
                k <= pieces@.len(),
                pieces@.len() == ps.len(),
                ps == split_on(f.value@, ','),
                starts@.len() == ps.len(),
                forall|q: int| 0 <= q < ps.len() ==> #[trigger] pieces@[q]@ == ps[q],
                forall|q: int| 0 <= q < ps.len() ==> #[trigger] starts@[q] as int == piece_starts(f.value@, ',')[q],
                forall|q: int| 0 <= q < ps.len() ==> #[trigger] starts@[q] + pieces@[q]@.len() <= vl,
                vl == f.value@.len(),
                ll == line@.len(),
                line@ == line_text(ctx.lines@, f.line),
                vs as int == value_start(ll as int, vl as int),
                out@.len() == k,
                forall|q: int|
                    0 <= q < k ==> is_reference(
                        #[trigger] out@[q],
                        self.prefix@,
                        self.suffix@,
                        line_text(ctx.lines@, f.line),
                        *f,
                        ps[q],
                        piece_starts(f.value@, ',')[q],
                    ),
            decreases pieces@.len() - k,
        {
            let p = pieces[k].as_str();
            let (a, b) = trim_span(p);
            assert(starts@[k as int] + pieces@[k as int]@.len() <= vl);
            let name = String::from_str(p.substring_char(a, b));
            let mut path = self.prefix.clone();
            path.append(name.as_str());
            path.append(self.suffix.as_str());
            let range = (vs + starts[k] + a, vs + starts[k] + b);
            let r = Reference { name, path, line: f.line, range };
            proof {
                assert(trim_bounds(ps[k as int], a as int, b as int));
            }
            out.push(r);
            k += 1;
        }
        out
    }
}

/// `pre`, then `name`, then `post`.
fn label3(pre: &str, name: &str, post: &str) -> (r: String)
    ensures
        r@ == pre@ + name@ + post@,
{
    let mut r = String::from_str(pre);
    r.append(name);
    r.append(post);
    r
}

/// The diagnostic, under `label`, on the reference `r` of `ctx`, whose
/// range is annotated under `note`.
fn reference_report(slug: &str, ctx: &Context, r: &Reference, label: String, note: String) -> (d: Snippet)
    ensures
        is_reference_report(d, slug@, *ctx, *r, label@, note@),
        d.footer@.len() == 0,
{
    let ty = ctx.settings.default_annotation_type;
    let mut annotations: Vec<SourceAnnotation> = Vec::new();
    annotations.push(SourceAnnotation { range: r.range, annotation_type: ty, label: note });
    let mut slices: Vec<Slice> = Vec::new();
    slices.push(Slice {
        source: line_at(&ctx.lines, r.line),
        line_start: r.line,
        origin: clone_text_opt(&ctx.origin),
        annotations,
        fold: false,
    });
    Snippet {
        title: Annotation { id: Some(String::from_str(slug)), annotation_type: ty, label },
        footer: Vec::new(),
        slices,
    }
}

/// `names`, each in backquotes, separated by commas.
pub fn quote_all(names: &Vec<String>) -> (r: String)
    ensures
        r@ == quoted_list(names@.map_values(|s: String| s@)),
{
    let ghost v = names@.map_values(|s: String| s@);
    let mut out = String::new();
    let mut i: usize = 0;
    while i < names.len()
        invariant
            i <= names@.len(),
            v == names@.map_values(|s: String| s@),
            out@ == quoted_list(v.take(i as int)),
        decreases names@.len() - i,
    {
        proof {
            assert(v.take(i + 1).drop_last() =~= v.take(i as int));
        }
        if i == 0 {
            out = label3("`", names[i].as_str(), "`");
            proof {
                assert(v.take(1)[0] == v[0]);
            }
        } else {
            out.append(", `");
            out.append(names[i].as_str());
            out.append("`");
        }
        i += 1;
    }
    proof {
        assert(v.take(i as int) =~= v);
    }
    out
}

impl RequiresStatus {
    /// The statuses of ranks `0` to `t` of the flow, in order.
    pub fn statuses_through(&self, t: usize) -> (r: Vec<String>)
        requires
            t < self.flow@.len(),
        ensures
            r@.map_values(|s: String| s@) == statuses_upto(self.flow@, t as int),
    {
        let mut out: Vec<String> = Vec::new();
        let n = self.flow.len();
        let mut k: usize = 0;
        while k <= t
            invariant
                k <= t + 1,
                n == self.flow@.len(),
                t < self.flow@.len(),
                out@.map_values(|s: String| s@) == statuses_upto(self.flow@, k - 1),
            decreases t + 1 - k,
        {
            let rank = &self.flow[k];
            let mut j: usize = 0;
            while j < rank.len()
                invariant
                    k <= t < self.flow@.len(),
                    n == self.flow@.len(),
                    rank == self.flow@[k as int],
                    j <= rank@.len(),
                    out@.map_values(|s: String| s@) == statuses_upto(self.flow@, k - 1) + rank@.take(
                        j as int,
                    ).map_values(|s: String| s@),
                decreases rank@.len() - j,
            {
                let ghost before = out@;
                out.push(rank[j].clone());
                proof {
                    assert(out@ == before.push(rank@[j as int]));
                    assert(rank@.take(j + 1) =~= rank@.take(j as int).push(rank@[j as int]));
                    assert(out@.map_values(|s: String| s@) =~= before.map_values(|s: String| s@).push(
                        rank@[j as int]@,
                    ));
                    assert(rank@.take(j + 1).map_values(|s: String| s@) =~= rank@.take(j as int).map_values(
                        |s: String| s@,
                    ).push(rank@[j as int]@));
                    assert(statuses_upto(self.flow@, k - 1) + rank@.take(j + 1).map_values(|s: String| s@)
                        =~= (statuses_upto(self.flow@, k - 1) + rank@.take(j as int).map_values(
                        |s: String| s@,
                    )).push(rank@[j as int]@));
                }
                j += 1;
            }
            proof {
                assert(rank@.take(j as int) =~= rank@);
            }
            k += 1;
        }
        out
    }

    /// The rank and the text of the status of the document `ctx`.
    pub fn own_status(&self, ctx: &Context) -> (r: Option<(usize, String)>)
        ensures
            own_view(r) == status_of(self.flow@, ctx.preamble@, self.status@),
    {
        match ctx.by_name(self.status.as_str()) {
            Some(f) => {
                let text = trim(f.value.as_str());
                match self.find_rank(text) {
                    Some(k) => Some((k, String::from_str(text))),
                    None => None,
                }
            },
            None => None,
        }
    }

    /// What the rule reports on the reference `r` of `ctx`, whose status has
    /// the rank and text `own`, given what fetching `r.path` returned.
    pub fn check_reference(
        &self,
        slug: &str,
        ctx: &Context,
        own: &Option<(usize, String)>,
        r: &Reference,
        fetched: &Result<String, FetchError>,
    ) -> (o: Option<Snippet>)
        ensures
            self.reference_outcome(slug@, *ctx, own_view(*own), *r, *fetched, o),
            r.range.0 <= r.range.1 <= line_text(ctx.lines@, r.line).len() && o is Some ==> o->0.wf(),
    {
        match fetched {
            Err(FetchError::NotFound) => Some(
                {
                    let label = label3("proposal `", r.name.as_str(), "` could not be found");
                    let note = label.clone();
                    reference_report(slug, ctx, r, label, note)
                },
            ),
            Err(FetchError::Unreadable) => Some(
                {
                    let label = label3("proposal `", r.name.as_str(), "` could not be read");
                    let note = label.clone();
                    reference_report(slug, ctx, r, label, note)
                },
            ),
            Ok(text) => {
                let pr = Context::parse(text.as_str(), Some(r.path.clone()));
                let ghost g = pr;
                let o = match &pr {
                    Err(_) => Some(
                        {
                    let label = label3("proposal `", r.name.as_str(), "` could not be parsed");
                    let note = label.clone();
                    reference_report(slug, ctx, r, label, note)
                },
                    ),
                    Ok(target) => match (own, self.own_rank(target)) {
                        (Some(mine), Some(t)) => if t < mine.0 {
                            let mut title = label3("preamble header `", self.requires.as_str(), "` contains items not stable enough for a `");
                            title.append(self.status.as_str());
                            title.append("` of `");
                            title.append(mine.1.as_str());
                            title.append("`");
                            let mut d = reference_report(slug, ctx, r, title, String::from_str("has a less advanced status"));
                            proof {
                                lemma_rank_bound(self.flow@, trimmed(target.preamble@[first_field(target.preamble@, self.status@)->0].value@));
                            }
                            let names = self.statuses_through(t);
                            let listing = quote_all(&names);
                            let mut label = label3("valid `", self.status.as_str(), "` values for this proposal are: ");
                            label.append(listing.as_str());
                            d.footer.push(Annotation { id: None, annotation_type: crate::severity::AnnotationTypeDef::Help, label });
                            Some(d)
                        } else {
                            None
                        },
                        _ => None,
                    },
                };
                proof {
                    assert(parse_result(text@, Some(r.path), g));
                }
                o
            },
        }
    }

    /// What the rule reports on each reference, given what fetching it
    /// returned: the reports line up with `fetched`.
    pub fn check(
        &self,
        slug: &str,
        ctx: &Context,
        fetched: &Vec<(Reference, Result<String, FetchError>)>,
    ) -> (r: Vec<Option<Snippet>>)
        ensures
            r@.len() == fetched@.len(),
            forall|k: int|
                0 <= k < fetched@.len() ==> self.reference_outcome(
                    slug@,
                    *ctx,
                    status_of(self.flow@, ctx.preamble@, self.status@),
                    (#[trigger] fetched@[k]).0,
                    fetched@[k].1,
                    r@[k],
                ),
    {
        let own = self.own_status(ctx);
        let mut out: Vec<Option<Snippet>> = Vec::new();
        let mut k: usize = 0;
        while k < fetched.len()
            invariant
                k <= fetched@.len(),
                out@.len() == k,
                own_view(own) == status_of(self.flow@, ctx.preamble@, self.status@),
                forall|q: int|
                    0 <= q < k ==> self.reference_outcome(
                        slug@,
                        *ctx,
                        own_view(own),
                        (#[trigger] fetched@[q]).0,
                        fetched@[q].1,
                        out@[q],
                    ),
            decreases fetched@.len() - k,
        {
            out.push(self.check_reference(slug, ctx, &own, &fetched[k].0, &fetched[k].1));
            k += 1;
        }
        out
    }
}

/// A reference that could not be fetched is reported on its own: one
/// diagnostic, whose one slice is the reference's line with exactly the
/// reference's range annotated. Nothing else is affected.
pub proof fn lemma_fetch_failure_scoped(
    rule: RequiresStatus,
    slug: Seq<char>,
    ctx: Context,
    own: Option<(usize, Seq<char>)>,
    r: Reference,
    e: FetchError,
    o: Option<Snippet>,
)
    requires
        rule.reference_outcome(slug, ctx, own, r, Err(e), o),
    ensures
        o is Some,
        o->0.slices@.len() == 1,
        o->0.slices@[0].line_start == r.line,
        o->0.slices@[0].annotations@.len() == 1,
        o->0.slices@[0].annotations@[0].range == r.range,
{
}

/// Whatever the rule reports on a reference carries, in its title and its
/// range annotation, the document's default severity: the one its settings
/// hold once the modifiers have run.
pub proof fn lemma_reports_use_default_severity(
    rule: RequiresStatus,
    slug: Seq<char>,
    ctx: Context,
    own: Option<(usize, Seq<char>)>,
    r: Reference,
    fetched: Result<String, FetchError>,
    o: Option<Snippet>,
)
    requires
        rule.reference_outcome(slug, ctx, own, r, fetched, o),
        o is Some,
    ensures
        o->0.title.annotation_type == ctx.settings.default_annotation_type,
        o->0.slices@[0].annotations@[0].annotation_type == ctx.settings.default_annotation_type,
{
}

proof fn lemma_rank_prefix(flow: Seq<Vec<String>>, s: Seq<char>, n: int)
    requires
        0 < n <= flow.len(),
        rank_of(flow.subrange(0, n), s) is Some,
    ensures
        rank_of(flow, s) == rank_of(flow.subrange(0, n), s),
        rank_of(flow, s)->0 < n,
    decreases flow.len() - n,
{
    lemma_rank_bound(flow.subrange(0, n), s);
    if n < flow.len() {
        assert(flow.subrange(0, n + 1).drop_last() =~= flow.subrange(0, n));
        lemma_rank_prefix(flow, s, n + 1);
    } else {
        assert(flow.subrange(0, n) =~= flow);
    }
}

proof fn lemma_rank_bound(flow: Seq<Vec<String>>, s: Seq<char>)
    ensures
        rank_of(flow, s) is Some ==> 0 <= rank_of(flow, s)->0 < flow.len(),
    decreases flow.len(),
{
    if flow.len() > 0 {
        lemma_rank_bound(flow.drop_last(), s);
    }
}

} // verus!
