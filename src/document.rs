//! A parsed document: its source lines, preamble fields and body.
use vstd::prelude::*;
use crate::severity::{AnnotationTypeDef, text_eq};

verus! {

/// The text of 1-based line `n` of `lines`, empty past either end.
pub open spec fn line_text(lines: Seq<String>, n: usize) -> Seq<char> {
    if 1 <= n <= lines.len() {
        lines[n - 1]@
    } else {
        Seq::empty()
    }
}

/// The text of 1-based line `n` of `lines`, empty past either end.
pub fn line_at(lines: &Vec<String>, n: usize) -> (r: String)
    ensures
        r@ == line_text(lines@, n),
{
    if 1 <= n && n <= lines.len() {
        lines[n - 1].clone()
    } else {
        String::new()
    }
}

/// Relies on `str::chars`: the characters of `s`, in order.
#[verifier::external_body]
pub(crate) fn chars_of(s: &str) -> (r: Vec<char>)
    ensures
        r@ == s@,
{
    s.chars().collect()
}

/// Reading the first `n` characters of `s`: the pieces ended by `sep` so
/// far, where each of them starts, and where the unfinished piece starts.
pub open spec fn scan(s: Seq<char>, sep: char, n: int) -> (Seq<Seq<char>>, Seq<int>, int)
    decreases n,
{
    if n <= 0 {
        (Seq::empty(), Seq::empty(), 0)
    } else {
        let p = scan(s, sep, n - 1);
        if s[n - 1] == sep {
            (p.0.push(s.subrange(p.2, n - 1)), p.1.push(p.2), n)
        } else {
            p
        }
    }
}

/// The pieces of `s` between occurrences of `sep`, a final `sep` ending the
/// last piece rather than starting an empty one.
pub open spec fn split_on(s: Seq<char>, sep: char) -> Seq<Seq<char>> {
    let p = scan(s, sep, s.len() as int);
    if p.2 < s.len() {
        p.0.push(s.subrange(p.2, s.len() as int))
    } else {
        p.0
    }
}

/// Where each piece of `split_on(s, sep)` starts.
pub open spec fn piece_starts(s: Seq<char>, sep: char) -> Seq<int> {
    let p = scan(s, sep, s.len() as int);
    if p.2 < s.len() {
        p.1.push(p.2)
    } else {
        p.1
    }
}

/// The lines of `s`.
pub open spec fn split_lines(s: Seq<char>) -> Seq<Seq<char>> {
    split_on(s, '\n')
}

/// Where each line of `s` starts.
pub open spec fn line_starts(s: Seq<char>) -> Seq<int> {
    piece_starts(s, '\n')
}

/// A line that opens or closes the preamble.
pub open spec fn is_delim(l: Seq<char>) -> bool {
    l == "---"@
}

/// Line `c` (0-based) closes the preamble that the first line opens.
pub open spec fn closes_preamble(lines: Seq<Seq<char>>, c: int) -> bool {
    &&& lines.len() > 0
    &&& is_delim(lines[0])
    &&& 1 <= c < lines.len()
    &&& is_delim(lines[c])
    &&& forall|j: int| 1 <= j < c ==> !is_delim(#[trigger] lines[j])
}

/// The document opens with a delimiter line and closes it later.
pub open spec fn has_preamble(lines: Seq<Seq<char>>) -> bool {
    &&& lines.len() > 0
    &&& is_delim(lines[0])
    &&& exists|c: int| 1 <= c < lines.len() && is_delim(#[trigger] lines[c])
}

/// `c` is the position of the first colon of `l`.
pub open spec fn first_colon(l: Seq<char>, c: int) -> bool {
    &&& 0 <= c < l.len()
    &&& l[c] == ':'
    &&& forall|j: int| 0 <= j < c ==> l[j] != ':'
}

pub open spec fn has_colon(l: Seq<char>) -> bool {
    exists|j: int| 0 <= j < l.len() && l[j] == ':'
}

/// The body: what follows the line that closes the preamble.
pub open spec fn body_text(s: Seq<char>, c: int) -> Seq<char> {
    if c + 1 < line_starts(s).len() {
        s.skip(line_starts(s)[c + 1])
    } else {
        Seq::empty()
    }
}

/// Settings of one run on one document.
#[derive(Debug, Clone, Copy, PartialEq, Eq, Structural)]
pub struct LintSettings {
    /// The severity of annotations whose rule gives none.
    pub default_annotation_type: AnnotationTypeDef,
}

impl LintSettings {
    pub fn new() -> (r: LintSettings)
        ensures
            r.default_annotation_type == AnnotationTypeDef::Error,
    {
        LintSettings { default_annotation_type: AnnotationTypeDef::Error }
    }
}

/// A preamble field, `name: value` on 1-based line `line`.
pub struct Field {
    pub name: String,
    pub value: String,
    pub line: usize,
}

/// Why a document could not be parsed.
#[derive(Debug, Clone, Copy, PartialEq, Eq, Structural)]
pub enum ParseError {
    /// The document does not open with a `---` line, or never closes it.
    MissingPreamble,
    /// The preamble line `line` (1-based) has no colon.
    MalformedField { line: usize },
}

/// One document, ready for the rules.
pub struct Context {
    pub origin: Option<String>,
    /// Every line of the source.
    pub lines: Vec<String>,
    pub preamble: Vec<Field>,
    pub body: String,
    /// The number of lines before the body.
    pub body_line: usize,
    pub settings: LintSettings,
}

/// `f` is what the preamble line `l`, 0-based index `k`, says.
pub open spec fn is_field_of(f: Field, l: Seq<char>, k: int) -> bool {
    exists|c: int|
        first_colon(l, c) && f.name@ == l.take(c) && f.value@ == l.skip(c + 1) && f.line == k + 1
}

/// `e` is the reason why `s` cannot be parsed.
pub open spec fn is_parse_error(e: ParseError, s: Seq<char>) -> bool {
    let lines = split_lines(s);
    match e {
        ParseError::MissingPreamble => !has_preamble(lines),
        ParseError::MalformedField { line } => exists|c: int|
            #![trigger closes_preamble(lines, c)]
            closes_preamble(lines, c) && 2 <= line <= c && !has_colon(lines[line - 1]) && forall|j: int|
                1 <= j < line - 1 ==> has_colon(#[trigger] lines[j]),
    }
}

/// `r` is the outcome of parsing `s`.
pub open spec fn parse_result(s: Seq<char>, origin: Option<String>, r: Result<Context, ParseError>) -> bool {
    match r {
        Ok(ctx) => parsed_from(ctx, s, origin),
        Err(e) => is_parse_error(e, s),
    }
}

/// The index of the first field of `p` named `name`.
pub open spec fn first_field(p: Seq<Field>, name: Seq<char>) -> Option<int>
    decreases p.len(),
{
    if p.len() == 0 {
        None
    } else {
        match first_field(p.drop_last(), name) {
            Some(i) => Some(i),
            None => if p.last().name@ == name {
                Some(p.len() - 1)
            } else {
                None
            },
        }
    }
}

proof fn lemma_first_field_prefix(p: Seq<Field>, name: Seq<char>, n: int)
    requires
        0 < n <= p.len(),
        first_field(p.subrange(0, n), name) is Some,
    ensures
        first_field(p, name) == first_field(p.subrange(0, n), name),
    decreases p.len() - n,
{
    if n < p.len() {
        assert(p.subrange(0, n + 1).drop_last() =~= p.subrange(0, n));
        lemma_first_field_prefix(p, name, n + 1);
    } else {
        assert(p.subrange(0, n) =~= p);
    }
}

/// The indices of the fields of `p` named `name`, in order.
pub open spec fn named_indices(p: Seq<Field>, name: Seq<char>) -> Seq<int>
    decreases p.len(),
{
    if p.len() == 0 {
        Seq::empty()
    } else {
        let rest = named_indices(p.drop_last(), name);
        if p.last().name@ == name {
            rest.push(p.len() - 1)
        } else {
            rest
        }
    }
}

/// `ctx` is the parse of `s`.
pub open spec fn parsed_from(ctx: Context, s: Seq<char>, origin: Option<String>) -> bool {
    let lines = split_lines(s);
    let c = ctx.body_line - 1;
    &&& ctx.body_line >= 2
    &&& closes_preamble(lines, c)
    &&& ctx.lines@.len() == lines.len()
    &&& forall|k: int| 0 <= k < lines.len() ==> #[trigger] ctx.lines@[k]@ == lines[k]
    &&& ctx.preamble@.len() == c - 1
    &&& forall|k: int| 0 <= k < c - 1 ==> is_field_of(#[trigger] ctx.preamble@[k], lines[k + 1], k + 1)
    &&& ctx.body@ == body_text(s, c)
    &&& ctx.origin == origin
    &&& ctx.settings.default_annotation_type == AnnotationTypeDef::Error
}

/// The pieces of `source` between occurrences of `sep`, and where each starts.
pub fn split(source: &str, chars: &Vec<char>, sep: char) -> (r: (Vec<String>, Vec<usize>))
    requires
        chars@ == source@,
    ensures
        r.0@.len() == split_on(source@, sep).len(),
        forall|k: int| 0 <= k < r.0@.len() ==> #[trigger] r.0@[k]@ == split_on(source@, sep)[k],
        r.1@.len() == piece_starts(source@, sep).len(),
        forall|k: int| 0 <= k < r.1@.len() ==> #[trigger] r.1@[k] as int == piece_starts(source@, sep)[k],
        forall|k: int| 0 <= k < r.1@.len() ==> #[trigger] r.1@[k] <= source@.len(),
        r.0@.len() == r.1@.len(),
        forall|k: int| 0 <= k < r.1@.len() ==> #[trigger] r.1@[k] + r.0@[k]@.len() <= source@.len(),
{
    let ghost s = source@;
    let mut lines: Vec<String> = Vec::new();
    let mut starts: Vec<usize> = Vec::new();
    let mut cur: usize = 0;
    let mut i: usize = 0;
    while i < chars.len()
        invariant
            chars@ == s,
            s == source@,
            i <= s.len(),
            cur as int == scan(s, sep, i as int).2,
            cur <= i,
            lines@.len() == scan(s, sep, i as int).0.len(),
            forall|k: int| 0 <= k < lines@.len() ==> #[trigger] lines@[k]@ == scan(s, sep, i as int).0[k],
            starts@.len() == scan(s, sep, i as int).1.len(),
            forall|k: int| 0 <= k < starts@.len() ==> #[trigger] starts@[k] as int == scan(s, sep, i as int).1[k],
            forall|k: int| 0 <= k < starts@.len() ==> #[trigger] starts@[k] <= i,
            lines@.len() == starts@.len(),
            forall|k: int| 0 <= k < starts@.len() ==> #[trigger] starts@[k] + lines@[k]@.len() <= i,
        decreases s.len() - i,
    {
        if chars[i] == sep {
            let l = source.substring_char(cur, i);
            lines.push(String::from_str(l));
            starts.push(cur);
            cur = i + 1;
        }
        i += 1;
    }
    if cur < chars.len() {
        let l = source.substring_char(cur, chars.len());
        lines.push(String::from_str(l));
        starts.push(cur);
    }
    (lines, starts)
}

/// The position of the first colon of `l`, if it has one.
fn find_colon(l: &str) -> (r: Option<usize>)
    ensures
        match r {
            Some(c) => first_colon(l@, c as int),
            None => !has_colon(l@),
        },
{
    let cs = chars_of(l);
    let mut j: usize = 0;
    while j < cs.len()
        invariant
            cs@ == l@,
            j <= cs@.len(),
            forall|k: int| 0 <= k < j ==> cs@[k] != ':',
        decreases cs@.len() - j,
    {
        if cs[j] == ':' {
            return Some(j);
        }
        j += 1;
    }
    None
}

impl Context {
    /// The indices of every preamble field named `name`, in order.
    pub fn all_by_name(&self, name: &str) -> (r: Vec<usize>)
        ensures
            r@.len() == named_indices(self.preamble@, name@).len(),
            forall|k: int| 0 <= k < r@.len() ==> #[trigger] r@[k] as int == named_indices(self.preamble@, name@)[k],
    {
        let ghost p = self.preamble@;
        let mut out: Vec<usize> = Vec::new();
        let mut i: usize = 0;
        while i < self.preamble.len()
            invariant
                i <= p.len(),
                p == self.preamble@,
                out@.len() == named_indices(p.subrange(0, i as int), name@).len(),
                forall|k: int|
                    0 <= k < out@.len() ==> #[trigger] out@[k] as int == named_indices(p.subrange(0, i as int), name@)[k],
            decreases p.len() - i,
        {
            proof {
                assert(p.subrange(0, i + 1).drop_last() =~= p.subrange(0, i as int));
            }
            if text_eq(self.preamble[i].name.as_str(), name) {
                let ghost before = out@;
                out.push(i);
                proof {
                    assert forall|k: int|
                        0 <= k < out@.len() implies #[trigger] out@[k] as int == named_indices(
                            p.subrange(0, i + 1),
                            name@,
                        )[k] by {
                        if k < before.len() {
                            assert(out@[k] == before[k]);
                        }
                    }
                }
            }
            i += 1;
        }
        proof {
            assert(p.subrange(0, i as int) =~= p);
        }
        out
    }

    /// The first preamble field named `name`.
    pub fn by_name(&self, name: &str) -> (r: Option<&Field>)
        ensures
            match first_field(self.preamble@, name@) {
                Some(i) => r == Some(&self.preamble@[i]),
                None => r is None,
            },
    {
        let mut i: usize = 0;
        while i < self.preamble.len()
            invariant
                i <= self.preamble@.len(),
                first_field(self.preamble@.subrange(0, i as int), name@) is None,
            decreases self.preamble@.len() - i,
        {
            proof {
                assert(self.preamble@.subrange(0, i + 1).drop_last() =~= self.preamble@.subrange(0, i as int));
            }
            if text_eq(self.preamble[i].name.as_str(), name) {
                proof {
                    lemma_first_field_prefix(self.preamble@, name@, i + 1);
                }
                return Some(&self.preamble[i]);
            }
            i += 1;
        }
        proof {
            assert(self.preamble@.subrange(0, i as int) =~= self.preamble@);
        }
        None
    }

    /// Parses `source`: a preamble of `name: value` lines between two `---`
    /// lines, then the body.
    pub fn parse(source: &str, origin: Option<String>) -> (r: Result<Context, ParseError>)
        ensures
            parse_result(source@, origin, r),
    {
        let ghost lines_spec = split_lines(source@);
        let chars = chars_of(source);
        let (lines, starts) = split(source, &chars, '\n');
        proof {
            reveal_strlit("---");
        }
        if lines.len() == 0 || !text_eq(lines[0].as_str(), "---") {
            return Err(ParseError::MissingPreamble);
        }
        let mut c: usize = 1;
        while c < lines.len() && !text_eq(lines[c].as_str(), "---")
            invariant
                1 <= c <= lines@.len(),
                lines@.len() == lines_spec.len(),
                lines_spec == split_lines(source@),
                forall|k: int| 0 <= k < lines_spec.len() ==> #[trigger] lines@[k]@ == lines_spec[k],
                forall|j: int| 1 <= j < c ==> !is_delim(#[trigger] lines_spec[j]),
            decreases lines@.len() - c,
        {
            c += 1;
        }
        if c == lines.len() {
            assert forall|k: int| 1 <= k < lines_spec.len() implies !is_delim(#[trigger] lines_spec[k]) by {}
            return Err(ParseError::MissingPreamble);
        }
        assert(closes_preamble(lines_spec, c as int));
        let mut preamble: Vec<Field> = Vec::new();
        let mut k: usize = 1;
        while k < c
            invariant
                1 <= k <= c,
                c < lines@.len(),
                closes_preamble(lines_spec, c as int),
                lines@.len() == lines_spec.len(),
                lines_spec == split_lines(source@),
                forall|q: int| 0 <= q < lines_spec.len() ==> #[trigger] lines@[q]@ == lines_spec[q],
                preamble@.len() == k - 1,
                forall|q: int| 0 <= q < k - 1 ==> is_field_of(#[trigger] preamble@[q], lines_spec[q + 1], q + 1),
                forall|q: int| 1 <= q < k ==> has_colon(#[trigger] lines_spec[q]),
            decreases c - k,
        {
            let l = lines[k].as_str();
            match find_colon(l) {
                None => {
                    proof {
                        assert(!has_colon(lines_spec[k as int]));
                        let line = (k + 1) as usize;
                        assert(closes_preamble(lines_spec, c as int) && 2 <= line <= c);
                        assert(lines_spec[line - 1] == lines_spec[k as int]);
                        assert(forall|j: int| 1 <= j < line - 1 ==> has_colon(#[trigger] lines_spec[j]));
                    }
                    return Err(ParseError::MalformedField { line: k + 1 });
                },
                Some(col) => {
                    let ghost lv = l@;
                    assert(has_colon(lines_spec[k as int]));
                    let name = String::from_str(l.substring_char(0, col));
                    let n = l.unicode_len();
                    let value = String::from_str(l.substring_char(col + 1, n));
                    assert(name@ =~= lv.take(col as int));
                    assert(value@ =~= lv.skip(col + 1));
                    preamble.push(Field { name, value, line: k + 1 });
                },
            }
            k += 1;
        }
        let body = if c + 1 < starts.len() {
            String::from_str(source.substring_char(starts[c + 1], chars.len()))
        } else {
            String::new()
        };
        proof {
            if c + 1 < starts.len() {
                assert(body@ =~= source@.skip(line_starts(source@)[c + 1]));
            }
        }
        Ok(Context { origin, lines, preamble, body, body_line: c + 1, settings: LintSettings::new() })
    }
}

/// A document that does not open and close its preamble with `---` lines
/// fails to parse, and the error says that the preamble is missing.
pub proof fn lemma_missing_preamble_fails(s: Seq<char>, origin: Option<String>, r: Result<Context, ParseError>)
    requires
        !has_preamble(split_lines(s)),
        parse_result(s, origin, r),
    ensures
        r == Err::<Context, ParseError>(ParseError::MissingPreamble),
{
    match r {
        Ok(ctx) => {
            assert(is_delim(split_lines(s)[ctx.body_line - 1]));
        },
        Err(ParseError::MalformedField { line }) => {
            let c = choose|c: int| #[trigger] closes_preamble(split_lines(s), c);
            assert(is_delim(split_lines(s)[c]));
        },
        Err(ParseError::MissingPreamble) => {},
    }
}

} // verus!
