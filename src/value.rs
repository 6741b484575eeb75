use vstd::prelude::*;
use vstd::string::*;

use crate::pattern::{path_chars, ParamKind};

verus! {

/// A placeholder's value, parsed from the text it captured.
#[derive(Clone, Debug)]
pub enum ParamValue {
    Unsigned(u64),
    Signed(i64),
    Text(String),
}

/// What a `ParamValue` holds, with the text as characters.
pub enum ParamView {
    Unsigned(u64),
    Signed(i64),
    Text(Seq<char>),
}

impl View for ParamValue {
    type V = ParamView;

    open spec fn view(&self) -> ParamView {
        match self {
            ParamValue::Unsigned(n) => ParamView::Unsigned(*n),
            ParamValue::Signed(n) => ParamView::Signed(*n),
            ParamValue::Text(s) => ParamView::Text(s@),
        }
    }
}

pub open spec fn values_view(v: Seq<ParamValue>) -> Seq<ParamView> {
    v.map_values(|x: ParamValue| x@)
}

pub open spec fn is_digit(c: char) -> bool {
    '0' <= c && c <= '9'
}

pub open spec fn all_digits(s: Seq<char>) -> bool {
    forall|k: int| 0 <= k < s.len() ==> is_digit(#[trigger] s[k])
}

pub open spec fn digit_of(c: char) -> nat {
    ((c as u32) - ('0' as u32)) as nat
}

/// The number that the decimal digits `s` write.
pub open spec fn digits_value(s: Seq<char>) -> nat
    decreases s.len(),
{
    if s.len() == 0 {
        0
    } else {
        digits_value(s.drop_last()) * 10 + digit_of(s.last())
    }
}

/// `s` less a leading `+` (or `-`, where `minus_allowed`), if it has one.
pub open spec fn unsigned_part(s: Seq<char>, minus_allowed: bool) -> Seq<char> {
    if s.len() > 0 && (s[0] == '+' || (minus_allowed && s[0] == '-')) {
        s.drop_first()
    } else {
        s
    }
}

/// A `u64` in decimal: an optional `+`, then one or more digits.
pub open spec fn unsigned_of(s: Seq<char>) -> Option<u64> {
    let d = unsigned_part(s, false);
    if d.len() > 0 && all_digits(d) && digits_value(d) <= u64::MAX {
        Some(digits_value(d) as u64)
    } else {
        None
    }
}

/// An `i64` in decimal: an optional `+` or `-`, then one or more digits.
pub open spec fn signed_of(s: Seq<char>) -> Option<i64> {
    let d = unsigned_part(s, true);
    let v: int = if s.len() > 0 && s[0] == '-' {
        -digits_value(d)
    } else {
        digits_value(d) as int
    };
    if d.len() > 0 && all_digits(d) && i64::MIN <= v <= i64::MAX {
        Some(v as i64)
    } else {
        None
    }
}

/// The value of kind `kind` that the text `s` writes, if it writes one.
pub open spec fn parse_spec(kind: ParamKind, s: Seq<char>) -> Option<ParamView> {
    match kind {
        ParamKind::Unsigned => match unsigned_of(s) {
            Some(n) => Some(ParamView::Unsigned(n)),
            None => None,
        },
        ParamKind::Signed => match signed_of(s) {
            Some(n) => Some(ParamView::Signed(n)),
            None => None,
        },
        ParamKind::Text => Some(ParamView::Text(s)),
    }
}

proof fn lemma_prefix_value_le(s: Seq<char>, m: int)
    requires
        0 <= m <= s.len(),
    ensures
        digits_value(s.take(m)) <= digits_value(s),
    decreases s.len(),
{
    if m < s.len() {
        assert(s.take(m) =~= s.drop_last().take(m));
        lemma_prefix_value_le(s.drop_last(), m);
    } else {
        assert(s.take(m) =~= s);
    }
}

/// The number that `p[a..b]` writes in decimal, if it is one or more digits
/// and fits in a `u64`.
fn parse_digits(p: &Vec<char>, a: usize, b: usize) -> (r: Option<u64>)
    requires
        a <= b <= p@.len(),
    ensures
        ({
            let d = p@.subrange(a as int, b as int);
            if d.len() > 0 && all_digits(d) && digits_value(d) <= u64::MAX {
                r == Some(digits_value(d) as u64)
            } else {
                r is None
            }
        }),
{
    let ghost d = p@.subrange(a as int, b as int);
    if a == b {
        return None;
    }
    let mut acc: u64 = 0;
    let mut j: usize = a;
    while j < b
        invariant
            a <= j <= b <= p@.len(),
            d == p@.subrange(a as int, b as int),
            all_digits(p@.subrange(a as int, j as int)),
            acc as nat == digits_value(p@.subrange(a as int, j as int)),
        decreases b - j,
    {
        let c = p[j];
        if !('0' <= c && c <= '9') {
            assert(d[j - a] == c);
            return None;
        }
        let dg: u64 = (c as u32 - '0' as u32) as u64;
        let ghost next = p@.subrange(a as int, j + 1);
        assert(next.drop_last() =~= p@.subrange(a as int, j as int));
        assert(next.last() == c);
        if acc > 1844674407370955161 || (acc == 1844674407370955161 && dg > 5) {
            proof {
                assert(digits_value(next) > u64::MAX);
                if all_digits(d) {
                    assert(d.take(j + 1 - a) =~= next);
                    lemma_prefix_value_le(d, j + 1 - a);
                }
            }
            return None;
        }
        acc = acc * 10 + dg;
        j = j + 1;
        assert(all_digits(p@.subrange(a as int, j as int))) by {
            assert forall|k: int| 0 <= k < j - a implies is_digit(
                #[trigger] p@.subrange(a as int, j as int)[k],
            ) by {
                if k < j - 1 - a {
                    assert(p@.subrange(a as int, j - 1)[k] == p@.subrange(a as int, j as int)[k]);
                }
            }
        }
    }
    Some(acc)
}

/// Parses the text a placeholder captured into a value of its kind. Numbers
/// are decimal, with an optional sign (`+` only, for `Unsigned`), and must
/// fit their type; text is taken as it is.
pub fn parse_param(kind: ParamKind, text: &str) -> (r: Option<ParamValue>)
    ensures
        match parse_spec(kind, text@) {
            Some(v) => r is Some && r->0@ == v,
            None => r is None,
        },
{
    match kind {
        ParamKind::Text => Some(ParamValue::Text(text.to_owned())),
        ParamKind::Unsigned => {
            let p = path_chars(text);
            let start: usize = if p.len() > 0 && p[0] == '+' { 1 } else { 0 };
            assert(p@.subrange(start as int, p@.len() as int) =~= unsigned_part(text@, false));
            match parse_digits(&p, start, p.len()) {
                Some(n) => Some(ParamValue::Unsigned(n)),
                None => None,
            }
        },
        ParamKind::Signed => {
            let p = path_chars(text);
            let neg = p.len() > 0 && p[0] == '-';
            let start: usize = if p.len() > 0 && (p[0] == '+' || p[0] == '-') { 1 } else { 0 };
            assert(p@.subrange(start as int, p@.len() as int) =~= unsigned_part(text@, true));
            match parse_digits(&p, start, p.len()) {
                Some(n) => {
                    if neg {
                        if n <= 9223372036854775808 {
                            let v: i64 = if n == 9223372036854775808 {
                                -9223372036854775807i64 - 1
                            } else {
                                -(n as i64)
                            };
                            Some(ParamValue::Signed(v))
                        } else {
                            None
                        }
                    } else {
                        if n <= 9223372036854775807 {
                            Some(ParamValue::Signed(n as i64))
                        } else {
                            None
                        }
                    }
                },
                None => None,
            }
        },
    }
}

} // verus!
