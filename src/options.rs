//! Which rules run, and under which disposition.
use vstd::prelude::*;
use crate::disposition::Disposition;

verus! {

/// The rule names to allow (never run), warn on and deny.
pub struct Opts {
    pub allow: Vec<String>,
    pub warn: Vec<String>,
    pub deny: Vec<String>,
}

/// A configuration error.
#[derive(Debug)]
pub enum ConfigError {
    /// An `allow`, `warn` or `deny` entry names no known rule.
    UnknownRule { name: String },
}

/// `n` is one of `names`.
pub open spec fn listed(names: Seq<String>, n: Seq<char>) -> bool {
    exists|i: int| 0 <= i < names.len() && #[trigger] names[i]@ == n
}

/// The disposition of the rule `n` under `o`; `None` when it is allowed.
pub open spec fn disposition_of(o: Opts, n: Seq<char>) -> Option<Disposition> {
    if listed(o.allow@, n) {
        None
    } else if listed(o.deny@, n) {
        Some(Disposition::Deny)
    } else if listed(o.warn@, n) {
        Some(Disposition::Warn)
    } else {
        Some(Disposition::Deny)
    }
}

/// The rules of `rules` that run under `o`, in order, each with its index
/// in `rules` and its disposition.
pub open spec fn enabled(rules: Seq<String>, o: Opts) -> Seq<(int, Disposition)>
    decreases rules.len(),
{
    if rules.len() == 0 {
        Seq::empty()
    } else {
        let rest = enabled(rules.drop_last(), o);
        match disposition_of(o, rules.last()@) {
            Some(d) => rest.push((rules.len() - 1, d)),
            None => rest,
        }
    }
}

/// The first name of `names` that is not one of `rules`.
pub open spec fn first_unknown(names: Seq<String>, rules: Seq<String>) -> Option<int> {
    if exists|i: int| 0 <= i < names.len() && !listed(rules, #[trigger] names[i]@) {
        Some(
            choose|i: int|
                0 <= i < names.len() && !listed(rules, #[trigger] names[i]@) && forall|j: int|
                    0 <= j < i ==> listed(rules, #[trigger] names[j]@),
        )
    } else {
        None
    }
}

pub fn is_listed(names: &Vec<String>, n: &String) -> (r: bool)
    ensures
        r == listed(names@, n@),
{
    let mut i: usize = 0;
    while i < names.len()
        invariant
            i <= names@.len(),
            forall|k: int| 0 <= k < i ==> names@[k]@ != n@,
        decreases names@.len() - i,
    {
        if names[i] == *n {
            return true;
        }
        i += 1;
    }
    false
}

fn find_unknown(names: &Vec<String>, rules: &Vec<String>) -> (r: Option<usize>)
    ensures
        match r {
            Some(i) => i < names@.len() && first_unknown(names@, rules@) == Some(i as int),
            None => first_unknown(names@, rules@) is None,
        },
{
    let mut i: usize = 0;
    while i < names.len()
        invariant
            i <= names@.len(),
            forall|j: int| 0 <= j < i ==> listed(rules@, #[trigger] names@[j]@),
        decreases names@.len() - i,
    {
        if !is_listed(rules, &names[i]) {
            proof {
                let k = choose|k: int|
                    0 <= k < names@.len() && !listed(rules@, #[trigger] names@[k]@) && forall|j: int|
                        0 <= j < k ==> listed(rules@, #[trigger] names@[j]@);
                if k < i {
                } else if k > i {
                    assert(listed(rules@, names@[i as int]@));
                }
            }
            return Some(i);
        }
        i += 1;
    }
    None
}

impl Opts {
    /// The rules of `rules` (by name, in order) that run, with their
    /// dispositions; an error when `warn`, `deny` or `allow` names an unknown
    /// rule (the first such name of `warn`, else of `deny`, else of `allow`).
    pub fn apply(&self, rules: &Vec<String>) -> (r: Result<Vec<(usize, Disposition)>, ConfigError>)
        ensures
            match r {
                Ok(v) => {
                    &&& first_unknown(self.warn@, rules@) is None
                    &&& first_unknown(self.deny@, rules@) is None
                    &&& first_unknown(self.allow@, rules@) is None
                    &&& v@.len() == enabled(rules@, *self).len()
                    &&& forall|i: int|
                        0 <= i < v@.len() ==> (#[trigger] v@[i]).0 as int == enabled(rules@, *self)[i].0
                            && v@[i].1 == enabled(rules@, *self)[i].1
                },
                Err(ConfigError::UnknownRule { name }) => match first_unknown(self.warn@, rules@) {
                    Some(i) => name@ == self.warn@[i]@,
                    None => match first_unknown(self.deny@, rules@) {
                        Some(i) => name@ == self.deny@[i]@,
                        None => match first_unknown(self.allow@, rules@) {
                            Some(i) => name@ == self.allow@[i]@,
                            None => false,
                        },
                    },
                },
            },
    {
        if let Some(i) = find_unknown(&self.warn, rules) {
            return Err(ConfigError::UnknownRule { name: self.warn[i].clone() });
        }
        if let Some(i) = find_unknown(&self.deny, rules) {
            return Err(ConfigError::UnknownRule { name: self.deny[i].clone() });
        }
        if let Some(i) = find_unknown(&self.allow, rules) {
            return Err(ConfigError::UnknownRule { name: self.allow[i].clone() });
        }
        let mut out: Vec<(usize, Disposition)> = Vec::new();
        let mut k: usize = 0;
        while k < rules.len()
            invariant
                k <= rules@.len(),
                out@.len() == enabled(rules@.subrange(0, k as int), *self).len(),
                forall|i: int|
                    0 <= i < out@.len() ==> (#[trigger] out@[i]).0 as int == enabled(
                        rules@.subrange(0, k as int),
                        *self,
                    )[i].0 && out@[i].1 == enabled(rules@.subrange(0, k as int), *self)[i].1,
            decreases rules@.len() - k,
        {
            proof {
                assert(rules@.subrange(0, k + 1).drop_last() =~= rules@.subrange(0, k as int));
            }
            let n = &rules[k];
            if !is_listed(&self.allow, n) {
                let d = if is_listed(&self.deny, n) {
                    Disposition::Deny
                } else if is_listed(&self.warn, n) {
                    Disposition::Warn
                } else {
                    Disposition::Deny
                };
                out.push((k, d));
            }
            k += 1;
        }
        proof {
            assert(rules@.subrange(0, k as int) =~= rules@);
        }
        Ok(out)
    }
}

pub proof fn lemma_enabled_in_range(rules: Seq<String>, o: Opts)
    ensures
        forall|i: int| 0 <= i < enabled(rules, o).len() ==> 0 <= (#[trigger] enabled(rules, o)[i]).0 < rules.len(),
{
    lemma_enabled_bounds(rules, o);
}

proof fn lemma_enabled_bounds(rules: Seq<String>, o: Opts)
    ensures
        forall|i: int|
            0 <= i < enabled(rules, o).len() ==> {
                let e = #[trigger] enabled(rules, o)[i];
                &&& 0 <= e.0 < rules.len()
                &&& disposition_of(o, rules[e.0]@) == Some(e.1)
            },
    decreases rules.len(),
{
    if rules.len() > 0 {
        lemma_enabled_bounds(rules.drop_last(), o);
        let rest = enabled(rules.drop_last(), o);
        assert forall|i: int| 0 <= i < rest.len() implies rules.drop_last()[rest[i].0] == rules[rest[i].0] by {
            assert(0 <= #[trigger] rest[i].0 < rules.drop_last().len());
        }
    }
}

/// A rule named in `allow` is never enabled, whatever `warn` and `deny` say.
pub proof fn lemma_allowed_never_enabled(rules: Seq<String>, o: Opts, n: Seq<char>)
    requires
        listed(o.allow@, n),
    ensures
        forall|i: int| 0 <= i < enabled(rules, o).len() ==> rules[(#[trigger] enabled(rules, o)[i]).0]@ != n,
{
    lemma_enabled_bounds(rules, o);
}

} // verus!
