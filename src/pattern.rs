use vstd::prelude::*;
use vstd::string::*;

verus! {

/// How a placeholder's captured text is turned into a value.
#[derive(Clone, Copy, Debug, PartialEq, Eq, Structural)]
pub enum ParamKind {
    /// A decimal `u64`.
    Unsigned,
    /// A decimal `i64`.
    Signed,
    /// The captured text itself.
    Text,
}

/// One `/`-separated piece of a path template.
#[derive(Clone, Debug)]
pub enum Segment {
    /// Matched verbatim.
    Literal(String),
    /// A named placeholder: matched against a non-empty run of word
    /// characters or hyphens, and captured.
    Param(String, ParamKind),
}

/// Whether `c` is in Unicode's `\w` class: letters, marks, decimal digits,
/// connector punctuation and join controls.
pub uninterp spec fn unicode_word(c: char) -> bool;

/// Relies on regex_syntax::is_word_character, the `\w` class of Rust's
/// regex engine, for whether `c` is a word character; ASCII letters, digits
/// and `_` are, `/` is not. It does not panic: the crate's default features
/// include `unicode-perl`.
#[verifier::external_body]
fn word_character(c: char) -> (r: bool)
    ensures
        r == unicode_word(c),
        ('a' <= c && c <= 'z') || ('A' <= c && c <= 'Z') || ('0' <= c && c <= '9') || c == '_'
            ==> r,
        c == '/' ==> !r,
{
    regex_syntax::is_word_character(c)
}

/// The characters a placeholder may span: word characters and `-`.
pub open spec fn is_word_char(c: char) -> bool {
    unicode_word(c) || c == '-'
}

/// A literal segment is non-empty and holds no path delimiter.
pub open spec fn valid_literal(l: Seq<char>) -> bool {
    l.len() > 0 && !l.contains('/')
}

pub open spec fn valid_segment(s: Segment) -> bool {
    match s {
        Segment::Literal(l) => valid_literal(l@),
        Segment::Param(_, _) => true,
    }
}

pub open spec fn valid_segments(segs: Seq<Segment>) -> bool {
    forall|k: int| 0 <= k < segs.len() ==> valid_segment(#[trigger] segs[k])
}

/// The end of the run of word characters in `p` that starts at `i`.
pub open spec fn run_end(p: Seq<char>, i: int) -> int
    decreases p.len() - i,
{
    if 0 <= i < p.len() && is_word_char(p[i]) {
        run_end(p, i + 1)
    } else {
        i
    }
}

/// Matches the segments `segs` against `p` from position `i` to its very end,
/// each segment preceded by one `/`; on success, the texts the placeholders
/// took, left to right.
pub open spec fn match_from(segs: Seq<Segment>, p: Seq<char>, i: int) -> Option<Seq<Seq<char>>>
    decreases segs.len(),
{
    if segs.len() == 0 {
        if i == p.len() {
            Some(Seq::empty())
        } else {
            None
        }
    } else if 0 <= i < p.len() && p[i] == '/' {
        match segs[0] {
            Segment::Literal(l) => {
                let e = i + 1 + l@.len();
                if e <= p.len() && p.subrange(i + 1, e) == l@ {
                    match_from(segs.drop_first(), p, e)
                } else {
                    None
                }
            },
            Segment::Param(_, _) => {
                let e = run_end(p, i + 1);
                if e > i + 1 {
                    match match_from(segs.drop_first(), p, e) {
                        Some(rest) => Some(seq![p.subrange(i + 1, e)] + rest),
                        None => None,
                    }
                } else {
                    None
                }
            },
        }
    } else {
        None
    }
}

/// What a template matches: the whole path, and nothing but `/` for the
/// template with no segments (the home route).
pub open spec fn captures_of(segs: Seq<Segment>, p: Seq<char>) -> Option<Seq<Seq<char>>> {
    if segs.len() == 0 {
        if p == seq!['/'] {
            Some(Seq::empty())
        } else {
            None
        }
    } else {
        match_from(segs, p, 0)
    }
}

/// The kinds of the placeholders of `segs`, left to right.
pub open spec fn param_kinds(segs: Seq<Segment>) -> Seq<ParamKind>
    decreases segs.len(),
{
    if segs.len() == 0 {
        Seq::empty()
    } else {
        match segs[0] {
            Segment::Literal(_) => param_kinds(segs.drop_first()),
            Segment::Param(_, k) => seq![k] + param_kinds(segs.drop_first()),
        }
    }
}

/// A match takes one text for each placeholder.
pub proof fn lemma_captures_len(segs: Seq<Segment>, p: Seq<char>, i: int)
    ensures
        match_from(segs, p, i) is Some ==> match_from(segs, p, i)->0.len() == param_kinds(
            segs,
        ).len(),
    decreases segs.len(),
{
    if segs.len() > 0 {
        lemma_captures_len(segs.drop_first(), p, i + 1 + segs[0]->Literal_0@.len());
        lemma_captures_len(segs.drop_first(), p, run_end(p, i + 1));
    }
}

pub open spec fn prepend(acc: Seq<Seq<char>>, o: Option<Seq<Seq<char>>>) -> Option<Seq<Seq<char>>> {
    match o {
        Some(rest) => Some(acc + rest),
        None => None,
    }
}

/// `spans` cut the texts `caps` out of `p`.
pub open spec fn spans_denote(spans: Seq<(usize, usize)>, p: Seq<char>, caps: Seq<Seq<char>>) -> bool {
    &&& spans.len() == caps.len()
    &&& forall|j: int|
        0 <= j < spans.len() ==> {
            &&& (#[trigger] spans[j]).0 <= spans[j].1 <= p.len()
            &&& caps[j] == p.subrange(spans[j].0 as int, spans[j].1 as int)
        }
}

pub fn is_word(c: char) -> (r: bool)
    ensures
        r == is_word_char(c),
{
    c == '-' || word_character(c)
}

fn literal_ok(l: &String) -> (r: bool)
    ensures
        r == valid_literal(l@),
{
    let lc = path_chars(l.as_str());
    let n = lc.len();
    if n == 0 {
        return false;
    }
    let mut j: usize = 0;
    while j < n
        invariant
            n == l@.len(),
            lc@ == l@,
            j <= n,
            forall|t: int| 0 <= t < j ==> l@[t] != '/',
        decreases n - j,
    {
        if lc[j] == '/' {
            assert(l@[j as int] == '/');
            return false;
        }
        j = j + 1;
    }
    true
}

/// Whether `s` may stand in a template.
pub fn segment_ok(s: &Segment) -> (r: bool)
    ensures
        r == valid_segment(*s),
{
    match s {
        Segment::Param(_, _) => true,
        Segment::Literal(l) => literal_ok(l),
    }
}

/// The kinds of the placeholders of `segs`, left to right.
pub fn kinds_of(segs: &Vec<Segment>) -> (r: Vec<ParamKind>)
    ensures
        r@ == param_kinds(segs@),
{
    let mut r: Vec<ParamKind> = Vec::new();
    let mut k: usize = segs.len();
    assert(segs@.skip(segs@.len() as int) =~= Seq::<Segment>::empty());
    while k > 0
        invariant
            k <= segs@.len(),
            r@ == param_kinds(segs@.skip(k as int)),
        decreases k,
    {
        k = k - 1;
        assert(segs@.skip(k as int).drop_first() =~= segs@.skip(k + 1));
        assert(segs@.skip(k as int)[0] == segs@[k as int]);
        match &segs[k] {
            Segment::Literal(_) => {},
            Segment::Param(_, kind) => {
                r.insert(0, *kind);
                assert(r@ =~= seq![*kind] + param_kinds(segs@.skip(k + 1)));
            },
        }
    }
    assert(segs@.skip(0) =~= segs@);
    r
}

/// The characters of `s`, in order.
pub fn path_chars(s: &str) -> (r: Vec<char>)
    ensures
        r@ == s@,
{
    broadcast use vstd::string::group_string_axioms;

    let mut v: Vec<char> = Vec::new();
    for c in it: s.chars()
        invariant
            v@ == it.seq().take(it.index() as int),
    {
        v.push(c);
    }
    v
}

fn scan_run(p: &Vec<char>, i: usize) -> (e: usize)
    requires
        i <= p@.len(),
    ensures
        e as int == run_end(p@, i as int),
        i <= e <= p@.len(),
{
    let mut j = i;
    while j < p.len() && is_word(p[j])
        invariant
            i <= j <= p@.len(),
            run_end(p@, i as int) == run_end(p@, j as int),
        decreases p@.len() - j,
    {
        j = j + 1;
    }
    j
}

fn literal_at(l: &String, p: &Vec<char>, i: usize) -> (r: bool)
    requires
        i <= p@.len(),
    ensures
        r == (i + l@.len() <= p@.len() && p@.subrange(i as int, i + l@.len()) == l@),
{
    let lc = path_chars(l.as_str());
    let n = lc.len();
    if n > p.len() - i {
        return false;
    }
    let mut j: usize = 0;
    while j < n
        invariant
            n == l@.len(),
            lc@ == l@,
            i + n <= p.len(),
            j <= n,
            forall|t: int| 0 <= t < j ==> p@[i + t] == l@[t],
        decreases n - j,
    {
        if p[i + j] != lc[j] {
            assert(p@.subrange(i as int, i + n)[j as int] != l@[j as int]);
            return false;
        }
        j = j + 1;
    }
    assert(p@.subrange(i as int, i + n) =~= l@);
    true
}

/// Where each placeholder's text lies in `p`, if `segs` match `p`.
pub fn capture_spans(segs: &Vec<Segment>, p: &Vec<char>) -> (r: Option<Vec<(usize, usize)>>)
    ensures
        match captures_of(segs@, p@) {
            Some(caps) => r is Some && spans_denote(r->0@, p@, caps),
            None => r is None,
        },
{
    if segs.len() == 0 {
        if p.len() == 1 && p[0] == '/' {
            assert(p@ =~= seq!['/']);
            return Some(Vec::new());
        } else {
            return None;
        }
    }
    let mut spans: Vec<(usize, usize)> = Vec::new();
    let ghost mut acc: Seq<Seq<char>> = Seq::empty();
    let mut k: usize = 0;
    let mut i: usize = 0;
    assert(segs@.skip(0) =~= segs@);
    while k < segs.len()
        invariant
            k <= segs@.len(),
            i <= p@.len(),
            spans_denote(spans@, p@, acc),
            captures_of(segs@, p@) == prepend(acc, match_from(segs@.skip(k as int), p@, i as int)),
        decreases segs@.len() - k,
    {
        let ghost rest = segs@.skip(k as int);
        assert(rest[0] == segs@[k as int]);
        assert(rest.drop_first() =~= segs@.skip(k + 1));
        if i >= p.len() || p[i] != '/' {
            return None;
        }
        match &segs[k] {
            Segment::Literal(l) => {
                if !literal_at(l, p, i + 1) {
                    return None;
                }
                i = i + 1 + l.as_str().unicode_len();
            },
            Segment::Param(_, _) => {
                let e = scan_run(p, i + 1);
                if e == i + 1 {
                    return None;
                }
                proof {
                    let piece = p@.subrange(i + 1, e as int);
                    let tail = match_from(segs@.skip(k + 1), p@, e as int);
                    if tail is Some {
                        assert(acc + (seq![piece] + tail->0) =~= (acc + seq![piece]) + tail->0);
                    }
                    acc = acc + seq![piece];
                }
                spans.push((i + 1, e));
                i = e;
            },
        }
        k = k + 1;
    }
    if i == p.len() {
        assert(acc + Seq::<Seq<char>>::empty() =~= acc);
        Some(spans)
    } else {
        None
    }
}

/// The texts that the placeholders of `segs` take in `path`, left to right,
/// if the template matches the whole path.
pub fn match_path(segs: &Vec<Segment>, path: &str) -> (r: Option<Vec<String>>)
    ensures
        match captures_of(segs@, path@) {
            Some(caps) => r is Some && r->0.deep_view() == caps,
            None => r is None,
        },
{
    let p = path_chars(path);
    match capture_spans(segs, &p) {
        None => None,
        Some(spans) => {
            let ghost caps = captures_of(segs@, path@)->0;
            let mut out: Vec<String> = Vec::new();
            let mut j: usize = 0;
            while j < spans.len()
                invariant
                    p@ == path@,
                    spans_denote(spans@, p@, caps),
                    j <= spans@.len(),
                    out@.len() == j,
                    forall|t: int| 0 <= t < j ==> (#[trigger] out@[t])@ == caps[t],
                decreases spans@.len() - j,
            {
                let (a, b) = spans[j];
                let s = path.substring_char(a, b).to_owned();
                out.push(s);
                j = j + 1;
            }
            assert(out.deep_view() =~= caps);
            Some(out)
        },
    }
}

} // verus!
