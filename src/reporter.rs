//! Decoration of finished diagnostics.
use vstd::prelude::*;
use crate::severity::AnnotationTypeDef;
use crate::diagnostic::{Annotation, Snippet};

verus! {

/// `o` is `d` with, when `d` names its rule, one help note appended to its
/// footer: `prefix`, the rule's name, then `suffix`.
pub open spec fn helped(o: Snippet, d: Snippet, prefix: Seq<char>, suffix: Seq<char>) -> bool {
    &&& o.title == d.title
    &&& o.slices == d.slices
    &&& match d.title.id {
        Some(id) => {
            &&& o.footer@.len() == d.footer@.len() + 1
            &&& o.footer@.take(d.footer@.len() as int) == d.footer@
            &&& o.footer@.last().id is None
            &&& o.footer@.last().annotation_type == AnnotationTypeDef::Help
            &&& o.footer@.last().label@ == prefix + id@ + suffix
        },
        None => o.footer == d.footer,
    }
}

/// Appends to the footer of `d` a help note that names its rule, between
/// `prefix` and `suffix` (a link to the rule's documentation, say).
pub fn add_help(d: &mut Snippet, prefix: &str, suffix: &str)
    ensures
        helped(*final(d), *old(d), prefix@, suffix@),
{
    let label = match &d.title.id {
        Some(id) => {
            let mut label = String::from_str(prefix);
            label.append(id.as_str());
            label.append(suffix);
            label
        },
        None => return,
    };
    let ghost before = d.footer@;
    d.footer.push(Annotation { id: None, annotation_type: AnnotationTypeDef::Help, label });
    proof {
        assert(d.footer@.take(before.len() as int) =~= before);
    }
}

/// Each of `ds` with its help note.
pub fn add_help_all(ds: Vec<Snippet>, prefix: &str, suffix: &str) -> (r: Vec<Snippet>)
    ensures
        r@.len() == ds@.len(),
        forall|k: int| 0 <= k < ds@.len() ==> helped(#[trigger] r@[k], ds@[k], prefix@, suffix@),
{
    let ghost all = ds@;
    let mut ds = ds;
    let mut out: Vec<Snippet> = Vec::new();
    let n = ds.len();
    let mut i: usize = 0;
    while i < n
        invariant
            n == all.len(),
            i <= n,
            ds@ == all.subrange(i as int, n as int),
            out@.len() == i,
            forall|k: int| 0 <= k < i ==> helped(#[trigger] out@[k], all[k], prefix@, suffix@),
        decreases n - i,
    {
        proof {
            assert(ds@[0] == all[i as int]);
        }
        let mut d = ds.remove(0);
        proof {
            assert(ds@ =~= all.subrange(i + 1, n as int));
        }
        add_help(&mut d, prefix, suffix);
        out.push(d);
        i += 1;
    }
    out
}

} // verus!
