//! The orchestrator: runs the modifiers, then every enabled rule, on one
//! document.
use vstd::prelude::*;
use crate::diagnostic::Snippet;
use crate::disposition::{Disposition, cap_snippet, snippet_capped, lowered, lemma_warn_only_lowers};
use crate::document::{Context, LintSettings};
use crate::markdown::markdown_headings;
use crate::modifier::{SetDefaultAnnotation, all_modified};
use crate::options::{ConfigError, Opts, enabled, first_unknown, listed};
use crate::requires_status::{FetchError, Reference, RequiresStatus};
use crate::section_order::{SectionOrder, level_two, section_reports};

verus! {

/// A configurable rule.
pub enum Rule {
    SectionOrder(SectionOrder),
    RequiresStatus(RequiresStatus),
}

/// The somes of `os`, in order.
pub open spec fn somes(os: Seq<Option<Snippet>>) -> Seq<Snippet>
    decreases os.len(),
{
    if os.len() == 0 {
        Seq::empty()
    } else {
        match os.last() {
            Some(d) => somes(os.drop_last()).push(d),
            None => somes(os.drop_last()),
        }
    }
}

/// `out` is what `rule`, named `slug`, reports on `ctx`, where `fetched`
/// holds the outcome of fetching each of its references.
pub open spec fn rule_output(
    rule: Rule,
    slug: Seq<char>,
    ctx: Context,
    fetched: Seq<(Reference, Result<String, FetchError>)>,
    out: Seq<Snippet>,
) -> bool {
    match rule {
        Rule::SectionOrder(so) => section_reports(
            so.0@,
            slug,
            ctx.origin,
            ctx.lines@,
            level_two(markdown_headings(ctx.body@), ctx.body_line),
            out,
        ),
        Rule::RequiresStatus(rs) => exists|os: Seq<Option<Snippet>>|
            #![trigger somes(os)]
            {
                &&& os.len() == fetched.len()
                &&& forall|k: int|
                    0 <= k < fetched.len() ==> rs.reference_outcome(
                        slug,
                        ctx,
                        crate::requires_status::status_of(rs.flow@, ctx.preamble@, rs.status@),
                        (#[trigger] fetched[k]).0,
                        fetched[k].1,
                        os[k],
                    )
                &&& out == somes(os)
            },
    }
}

/// `refs` are the references that `rule` needs fetched for `ctx`.
pub open spec fn rule_references(rule: Rule, ctx: Context, refs: Seq<Reference>) -> bool {
    match rule {
        Rule::SectionOrder(_) => refs.len() == 0,
        Rule::RequiresStatus(rs) => rs.references_of(ctx, refs),
    }
}

/// `out` is `raw` with every severity under disposition `d`.
pub open spec fn all_capped(out: Seq<Snippet>, raw: Seq<Snippet>, d: Disposition) -> bool {
    &&& out.len() == raw.len()
    &&& forall|k: int| 0 <= k < raw.len() ==> snippet_capped(#[trigger] out[k], raw[k], d)
}

/// The names of `rules`.
pub open spec fn rule_names(rules: Seq<(String, Rule)>) -> Seq<String> {
    rules.map_values(|p: (String, Rule)| p.0)
}

/// The outcomes of fetching the references of rule `k`; none when `fetched`
/// holds nothing for it.
pub open spec fn fetched_for(
    fetched: Seq<Vec<(Reference, Result<String, FetchError>)>>,
    k: int,
) -> Seq<(Reference, Result<String, FetchError>)> {
    if 0 <= k < fetched.len() {
        fetched[k]@
    } else {
        Seq::empty()
    }
}

/// A set of named rules, the modifiers to run before them, and which of them
/// run how.
pub struct Linter {
    pub rules: Vec<(String, Rule)>,
    pub modifiers: Vec<SetDefaultAnnotation>,
    pub opts: Opts,
}

fn flatten(os: Vec<Option<Snippet>>) -> (r: Vec<Snippet>)
    ensures
        r@ == somes(os@),
{
    let ghost all = os@;
    let mut os = os;
    let mut out: Vec<Snippet> = Vec::new();
    let n = os.len();
    let mut i: usize = 0;
    while i < n
        invariant
            n == all.len(),
            i <= n,
            os@ == all.subrange(i as int, n as int),
            out@ == somes(all.subrange(0, i as int)),
        decreases n - i,
    {
        proof {
            assert(all.subrange(0, i + 1).drop_last() =~= all.subrange(0, i as int));
            assert(os@[0] == all[i as int]);
        }
        let o = os.remove(0);
        proof {
            assert(os@ =~= all.subrange(i + 1, n as int));
        }
        match o {
            Some(d) => out.push(d),
            None => {},
        }
        i += 1;
    }
    proof {
        assert(all.subrange(0, n as int) =~= all);
    }
    out
}

impl Linter {
    /// `r` is the outcome of linting the document `before` (which becomes
    /// `after`), given the outcomes `fetched` of fetching each rule's
    /// references: an error exactly when the options name an unknown rule;
    /// otherwise the settings are those of the modifiers, the document is
    /// otherwise unchanged, and each enabled rule, in order, gives its
    /// findings under its disposition.
    pub open spec fn run_result(
        self,
        before: Context,
        after: Context,
        fetched: Seq<Vec<(Reference, Result<String, FetchError>)>>,
        r: Result<Vec<(usize, Vec<Snippet>)>, ConfigError>,
    ) -> bool {
        let names = rule_names(self.rules@);
        &&& after.origin == before.origin
        &&& after.lines == before.lines
        &&& after.preamble == before.preamble
        &&& after.body == before.body
        &&& after.body_line == before.body_line
        &&& (r is Err <==> (first_unknown(self.opts.warn@, names) is Some || first_unknown(self.opts.deny@, names)
            is Some || first_unknown(self.opts.allow@, names) is Some))
        &&& r is Ok ==> {
            let en = enabled(names, self.opts);
            let out = r->Ok_0@;
            &&& after.settings == all_modified(self.modifiers@, before.preamble@, before.settings)
            &&& out.len() == en.len()
            &&& forall|i: int|
                0 <= i < en.len() ==> {
                    let e = #[trigger] en[i];
                    &&& out[i].0 as int == e.0
                    &&& exists|raw: Seq<Snippet>|
                        #![trigger all_capped(out[i].1@, raw, e.1)]
                        rule_output(self.rules@[e.0].1, self.rules@[e.0].0@, after, fetched_for(fetched, e.0), raw)
                            && all_capped(out[i].1@, raw, e.1)
                }
        }
    }

    /// The names of the rules, in order.
    pub fn names(&self) -> (r: Vec<String>)
        ensures
            r@.len() == self.rules@.len(),
            forall|k: int| 0 <= k < r@.len() ==> #[trigger] r@[k] == self.rules@[k].0,
    {
        let mut out: Vec<String> = Vec::new();
        let mut k: usize = 0;
        while k < self.rules.len()
            invariant
                k <= self.rules@.len(),
                out@.len() == k,
                forall|q: int| 0 <= q < k ==> #[trigger] out@[q] == self.rules@[q].0,
            decreases self.rules@.len() - k,
        {
            out.push(self.rules[k].0.clone());
            k += 1;
        }
        out
    }

    /// The references that each rule needs fetched for `ctx`, rule by rule.
    pub fn references(&self, ctx: &Context) -> (r: Vec<Vec<Reference>>)
        ensures
            r@.len() == self.rules@.len(),
            forall|k: int| 0 <= k < r@.len() ==> rule_references(self.rules@[k].1, *ctx, (#[trigger] r@[k])@),
    {
        let mut out: Vec<Vec<Reference>> = Vec::new();
        let mut k: usize = 0;
        while k < self.rules.len()
            invariant
                k <= self.rules@.len(),
                out@.len() == k,
                forall|q: int| 0 <= q < k ==> rule_references(self.rules@[q].1, *ctx, (#[trigger] out@[q])@),
            decreases self.rules@.len() - k,
        {
            match &self.rules[k].1 {
                Rule::RequiresStatus(rs) => out.push(rs.references(ctx)),
                Rule::SectionOrder(_) => out.push(Vec::new()),
            }
            k += 1;
        }
        out
    }

    /// Runs the modifiers on the settings of `ctx`, in order.
    pub fn modify(&self, ctx: &mut Context)
        ensures
            final(ctx).settings == all_modified(self.modifiers@, old(ctx).preamble@, old(ctx).settings),
            final(ctx).origin == old(ctx).origin,
            final(ctx).lines == old(ctx).lines,
            final(ctx).preamble == old(ctx).preamble,
            final(ctx).body == old(ctx).body,
            final(ctx).body_line == old(ctx).body_line,
    {
        let mut settings: LintSettings = ctx.settings;
        let mut k: usize = 0;
        while k < self.modifiers.len()
            invariant
                k <= self.modifiers@.len(),
                settings == all_modified(self.modifiers@.subrange(0, k as int), ctx.preamble@, ctx.settings),
            decreases self.modifiers@.len() - k,
        {
            proof {
                assert(self.modifiers@.subrange(0, k + 1).drop_last() =~= self.modifiers@.subrange(0, k as int));
            }
            self.modifiers[k].modify(ctx, &mut settings);
            k += 1;
        }
        proof {
            assert(self.modifiers@.subrange(0, k as int) =~= self.modifiers@);
        }
        ctx.settings = settings;
    }

    /// What `rule`, named `slug`, reports on `ctx`.
    fn run_rule(
        rule: &Rule,
        slug: &str,
        ctx: &Context,
        fetched: &Vec<(Reference, Result<String, FetchError>)>,
    ) -> (r: Vec<Snippet>)
        ensures
            rule_output(*rule, slug@, *ctx, fetched@, r@),
    {
        match rule {
            Rule::SectionOrder(so) => so.lint(slug, ctx),
            Rule::RequiresStatus(rs) => {
                let os = rs.check(slug, ctx, fetched);
                let r = flatten(os);
                proof {
                    assert(somes(os@) == r@);
                }
                r
            },
        }
    }

    /// Lints one document: runs the modifiers, then each enabled rule in
    /// order, under its disposition. `fetched[k]` holds the outcome of
    /// fetching each reference of rule `k`. Each enabled rule's index comes
    /// with its findings.
    pub fn run(
        &self,
        ctx: &mut Context,
        fetched: &Vec<Vec<(Reference, Result<String, FetchError>)>>,
    ) -> (r: Result<Vec<(usize, Vec<Snippet>)>, ConfigError>)
        requires
            fetched@.len() == self.rules@.len(),
            forall|k: int|
                0 <= k < fetched@.len() ==> rule_references(
                    self.rules@[k].1,
                    *old(ctx),
                    (#[trigger] fetched@[k])@.map_values(|p: (Reference, Result<String, FetchError>)| p.0),
                ),
        ensures
            self.run_result(*old(ctx), *final(ctx), fetched@, r),
    {
        let names = self.names();
        proof {
            assert(names@ =~= rule_names(self.rules@));
        }
        let en = match self.opts.apply(&names) {
            Ok(v) => v,
            Err(e) => return Err(e),
        };
        self.modify(ctx);
        let ghost ens = enabled(rule_names(self.rules@), self.opts);
        proof {
            crate::options::lemma_enabled_in_range(rule_names(self.rules@), self.opts);
        }
        let mut out: Vec<(usize, Vec<Snippet>)> = Vec::new();
        let mut i: usize = 0;
        while i < en.len()
            invariant
                i <= en@.len(),
                en@.len() == ens.len(),
                ens == enabled(rule_names(self.rules@), self.opts),
                forall|q: int| 0 <= q < en@.len() ==> (#[trigger] en@[q]).0 as int == ens[q].0 && en@[q].1 == ens[q].1,
                forall|q: int| 0 <= q < ens.len() ==> 0 <= (#[trigger] ens[q]).0 < self.rules@.len(),
                out@.len() == i,
                forall|q: int|
                    0 <= q < i ==> {
                        let e = #[trigger] ens[q];
                        &&& out@[q].0 as int == e.0
                        &&& exists|raw: Seq<Snippet>|
                            #![trigger all_capped(out@[q].1@, raw, e.1)]
                            rule_output(self.rules@[e.0].1, self.rules@[e.0].0@, *ctx, fetched_for(fetched@, e.0), raw)
                                && all_capped(out@[q].1@, raw, e.1)
                    },
            decreases en@.len() - i,
        {
            let (idx, d) = en[i];
            assert(ens[i as int].0 == idx as int);
            let empty: Vec<(Reference, Result<String, FetchError>)> = Vec::new();
            let fr = if idx < fetched.len() { &fetched[idx] } else { &empty };
            assert(fr@ == fetched_for(fetched@, idx as int));
            let raw = Self::run_rule(&self.rules[idx].1, self.rules[idx].0.as_str(), ctx, fr);
            let mut capped: Vec<Snippet> = Vec::new();
            let mut k: usize = 0;
            while k < raw.len()
                invariant
                    k <= raw@.len(),
                    capped@.len() == k,
                    forall|q: int| 0 <= q < k ==> snippet_capped(#[trigger] capped@[q], raw@[q], d),
                decreases raw@.len() - k,
            {
                capped.push(cap_snippet(&raw[k], d));
                k += 1;
            }
            assert(all_capped(capped@, raw@, d));
            let ghost before = out@;
            out.push((idx, capped));
            proof {
                assert(out@[i as int].1@ == capped@);
                assert forall|q: int|
                    0 <= q < i + 1 implies {
                        let e = #[trigger] ens[q];
                        &&& out@[q].0 as int == e.0
                        &&& exists|raw: Seq<Snippet>|
                            #![trigger all_capped(out@[q].1@, raw, e.1)]
                            rule_output(self.rules@[e.0].1, self.rules@[e.0].0@, *ctx, fetched_for(fetched@, e.0), raw)
                                && all_capped(out@[q].1@, raw, e.1)
                    } by {
                    if q < i {
                        assert(out@[q] == before[q]);
                    } else {
                        assert(all_capped(out@[q].1@, raw@, ens[q].1));
                    }
                }
            }
            i += 1;
        }
        Ok(out)
    }
}

/// A rule named in `allow` contributes nothing to a run, whatever `warn`
/// and `deny` say: no group of findings belongs to it.
pub proof fn lemma_allowed_rule_silent(
    linter: Linter,
    before: Context,
    after: Context,
    fetched: Seq<Vec<(Reference, Result<String, FetchError>)>>,
    r: Result<Vec<(usize, Vec<Snippet>)>, ConfigError>,
    n: Seq<char>,
)
    requires
        linter.run_result(before, after, fetched, r),
        r is Ok,
        listed(linter.opts.allow@, n),
    ensures
        forall|i: int|
            0 <= i < r->Ok_0@.len() ==> linter.rules@[(#[trigger] r->Ok_0@[i]).0 as int].0@ != n,
{
    let names = rule_names(linter.rules@);
    let en = enabled(names, linter.opts);
    crate::options::lemma_allowed_never_enabled(names, linter.opts, n);
    crate::options::lemma_enabled_in_range(names, linter.opts);
    assert forall|i: int| 0 <= i < r->Ok_0@.len() implies linter.rules@[(#[trigger] r->Ok_0@[i]).0 as int].0@
        != n by {
        assert(r->Ok_0@[i].0 as int == en[i].0);
        assert(names[en[i].0] == linter.rules@[en[i].0].0);
    }
}

/// Switching a rule from deny to warn keeps its findings, one for one, and
/// raises none of their severities.
pub proof fn lemma_warn_lowers_findings(raw: Seq<Snippet>, w: Seq<Snippet>, v: Seq<Snippet>)
    requires
        all_capped(w, raw, Disposition::Warn),
        all_capped(v, raw, Disposition::Deny),
    ensures
        w.len() == v.len(),
        forall|k: int| 0 <= k < w.len() ==> lowered(#[trigger] w[k], v[k]),
{
    assert forall|k: int| 0 <= k < w.len() implies lowered(#[trigger] w[k], v[k]) by {
        lemma_warn_only_lowers(raw[k], w[k], v[k]);
    }
}

proof fn lemma_somes_keeps(os: Seq<Option<Snippet>>, k: int)
    requires
        0 <= k < os.len(),
        os[k] is Some,
    ensures
        exists|j: int| 0 <= j < somes(os).len() && #[trigger] somes(os)[j] == os[k]->0,
    decreases os.len(),
{
    if k == os.len() - 1 {
        assert(somes(os)[somes(os).len() - 1] == os[k]->0);
    } else {
        let d = os.drop_last();
        assert(d[k] == os[k]);
        lemma_somes_keeps(d, k);
        let j = choose|j: int| 0 <= j < somes(d).len() && #[trigger] somes(d)[j] == d[k]->0;
        assert(somes(os)[j] == os[k]->0);
    }
}

/// A required proposal that could not be fetched is reported among the
/// status-flow rule's findings, on exactly its own range, and the rule's
/// other findings still come: the rule reports on every reference.
pub proof fn lemma_fetch_failure_reported(
    rs: RequiresStatus,
    slug: Seq<char>,
    ctx: Context,
    fetched: Seq<(Reference, Result<String, FetchError>)>,
    out: Seq<Snippet>,
    k: int,
)
    requires
        rule_output(Rule::RequiresStatus(rs), slug, ctx, fetched, out),
        0 <= k < fetched.len(),
        fetched[k].1 is Err,
    ensures
        exists|j: int|
            0 <= j < out.len() && (#[trigger] out[j]).slices@.len() == 1 && out[j].slices@[0].line_start
                == fetched[k].0.line && out[j].slices@[0].annotations@.len() == 1
                && out[j].slices@[0].annotations@[0].range == fetched[k].0.range,
{
    let os = choose|os: Seq<Option<Snippet>>|
        {
            &&& os.len() == fetched.len()
            &&& forall|q: int|
                0 <= q < fetched.len() ==> rs.reference_outcome(
                    slug,
                    ctx,
                    crate::requires_status::status_of(rs.flow@, ctx.preamble@, rs.status@),
                    (#[trigger] fetched[q]).0,
                    fetched[q].1,
                    os[q],
                )
            &&& out == #[trigger] somes(os)
        };
    let own = crate::requires_status::status_of(rs.flow@, ctx.preamble@, rs.status@);
    assert(rs.reference_outcome(slug, ctx, own, fetched[k].0, fetched[k].1, os[k]));
    crate::requires_status::lemma_fetch_failure_scoped(rs, slug, ctx, own, fetched[k].0, fetched[k].1->Err_0, os[k]);
    lemma_somes_keeps(os, k);
}

} // verus!
