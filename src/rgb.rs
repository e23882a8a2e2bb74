//! Parsing of an `"r,g,b"` colour text.
use vstd::prelude::*;
use vstd::string::StrSliceExecFns;
use crate::types::Rgb;

verus! {

/// Why a colour text was refused.
#[derive(Debug, Clone, Copy, PartialEq, Eq, Structural)]
pub enum RgbError {
    /// The text does not have exactly three comma-separated parts.
    ComponentCount,
    /// A part is not a decimal number from 0 to 255.
    InvalidComponent,
}

impl RgbError {
    /// A one-line description.
    pub fn message(&self) -> (r: &'static str)
        ensures
            *self == RgbError::ComponentCount ==> r@ == "RGB string must have three components"@,
            *self == RgbError::InvalidComponent ==> r@ == "Invalid RGB component"@,
    {
        match self {
            RgbError::ComponentCount => "RGB string must have three components",
            RgbError::InvalidComponent => "Invalid RGB component",
        }
    }
}

/// The characters that `str::trim` removes: those with the Unicode
/// `White_Space` property.
pub open spec fn is_white_space(c: char) -> bool {
    let u = c as u32;
    (0x09 <= u <= 0x0d) || u == 0x20 || u == 0x85 || u == 0xa0 || u == 0x1680 || (0x2000 <= u
        <= 0x200a) || u == 0x2028 || u == 0x2029 || u == 0x202f || u == 0x205f || u == 0x3000
}

/// The text cut at every comma.
pub open spec fn split_commas(s: Seq<char>) -> Seq<Seq<char>>
    decreases s.len(),
{
    if s.len() == 0 {
        seq![Seq::<char>::empty()]
    } else {
        let rest = split_commas(s.drop_last());
        if s.last() == ',' {
            rest.push(Seq::<char>::empty())
        } else {
            rest.update(rest.len() - 1, rest.last().push(s.last()))
        }
    }
}

/// The text without leading white space.
pub open spec fn trim_start(s: Seq<char>) -> Seq<char>
    decreases s.len(),
{
    if s.len() > 0 && is_white_space(s[0]) {
        trim_start(s.drop_first())
    } else {
        s
    }
}

/// The text without trailing white space.
pub open spec fn trim_end(s: Seq<char>) -> Seq<char>
    decreases s.len(),
{
    if s.len() > 0 && is_white_space(s.last()) {
        trim_end(s.drop_last())
    } else {
        s
    }
}

pub open spec fn is_digit(c: char) -> bool {
    '0' <= c <= '9'
}

/// The value of a string of decimal digits.
pub open spec fn decimal_value(s: Seq<char>) -> int
    decreases s.len(),
{
    if s.len() == 0 {
        0
    } else {
        decimal_value(s.drop_last()) * 10 + (s.last() as u32 - '0' as u32)
    }
}

/// What `u8::from_str` accepts: an optional `+`, then one or more decimal
/// digits whose value is at most 255.
pub open spec fn parse_u8(s: Seq<char>) -> Option<u8> {
    if s.len() > 0 && s[0] == '+' {
        parse_digits(s.drop_first())
    } else {
        parse_digits(s)
    }
}

/// One or more decimal digits whose value is at most 255.
pub open spec fn parse_digits(d: Seq<char>) -> Option<u8> {
    if d.len() > 0 && (forall|i: int| 0 <= i < d.len() ==> is_digit(#[trigger] d[i]))
        && decimal_value(d) <= 255 {
        Some(decimal_value(d) as u8)
    } else {
        None
    }
}

/// The colour that a text `"r,g,b"` names; white space around each part is
/// ignored.
pub open spec fn rgb_of(s: Seq<char>) -> Result<(u8, u8, u8), RgbError> {
    let parts = split_commas(s);
    if parts.len() != 3 {
        Err(RgbError::ComponentCount)
    } else {
        match (
            parse_u8(trim_end(trim_start(parts[0]))),
            parse_u8(trim_end(trim_start(parts[1]))),
            parse_u8(trim_end(trim_start(parts[2]))),
        ) {
            (Some(r), Some(g), Some(b)) => Ok((r, g, b)),
            _ => Err(RgbError::InvalidComponent),
        }
    }
}

fn white_space(c: char) -> (r: bool)
    ensures
        r == is_white_space(c),
{
    let u = c as u32;
    (0x09 <= u && u <= 0x0d) || u == 0x20 || u == 0x85 || u == 0xa0 || u == 0x1680 || (0x2000 <= u
        && u <= 0x200a) || u == 0x2028 || u == 0x2029 || u == 0x202f || u == 0x205f || u == 0x3000
}

proof fn lemma_decimal_grows(s: Seq<char>)
    requires
        forall|i: int| 0 <= i < s.len() ==> is_digit(#[trigger] s[i]),
        s.len() > 0,
    ensures
        decimal_value(s) >= decimal_value(s.drop_last()),
        decimal_value(s.drop_last()) >= 0,
    decreases s.len(),
{
    if s.len() > 1 {
        lemma_decimal_grows(s.drop_last());
    }
    assert(is_digit(s.last()));
}

fn trimmed_bounds(s: &Vec<char>) -> (r: (usize, usize))
    ensures
        r.0 <= r.1 <= s@.len(),
        trim_end(trim_start(s@)) == s@.subrange(r.0 as int, r.1 as int),
{
    let n = s.len();
    let mut a: usize = 0;
    proof {
        assert(s@.subrange(0, n as int) =~= s@);
    }
    while a < n && white_space(s[a])
        invariant
            a <= n == s@.len(),
            trim_start(s@) == trim_start(s@.subrange(a as int, n as int)),
        decreases n - a,
    {
        proof {
            assert(s@.subrange(a as int, n as int).drop_first() =~= s@.subrange(a + 1, n as int));
        }
        a += 1;
    }
    proof {
        assert(trim_start(s@.subrange(a as int, n as int)) == s@.subrange(a as int, n as int));
    }
    let mut b: usize = n;
    while b > a && white_space(s[b - 1])
        invariant
            a <= b <= n == s@.len(),
            trim_end(trim_start(s@)) == trim_end(s@.subrange(a as int, b as int)),
        decreases b,
    {
        proof {
            assert(s@.subrange(a as int, b as int).drop_last() =~= s@.subrange(a as int, b - 1));
        }
        b -= 1;
    }
    (a, b)
}

fn parse_component(s: &Vec<char>) -> (r: Option<u8>)
    ensures
        r == parse_u8(trim_end(trim_start(s@))),
{
    let (a, b) = trimmed_bounds(s);
    let ghost t = s@.subrange(a as int, b as int);
    let start = if a < b && s[a] == '+' { a + 1 } else { a };
    let ghost d = s@.subrange(start as int, b as int);
    proof {
        if a < b && s@[a as int] == '+' {
            assert(t.drop_first() =~= d);
        } else {
            assert(t =~= d);
        }
    }
    if start >= b {
        return None;
    }
    let mut value: u32 = 0;
    let mut i: usize = start;
    while i < b
        invariant
            start <= i <= b <= s@.len(),
            parse_u8(trim_end(trim_start(s@))) == parse_digits(d),
            d.len() > 0,
            d == s@.subrange(start as int, b as int),
            forall|k: int| start <= k < i ==> is_digit(#[trigger] s@[k]),
            value == decimal_value(s@.subrange(start as int, i as int)),
            value <= 255,
        decreases b - i,
    {
        let c = s[i];
        if !('0' <= c && c <= '9') {
            proof {
                assert(!is_digit(d[i - start]));
            }
            return None;
        }
        proof {
            assert(s@.subrange(start as int, i + 1).drop_last() =~= s@.subrange(start as int, i as int));
        }
        let v = value * 10 + (c as u32 - '0' as u32);
        if v > 255 {
            proof {
                let p = s@.subrange(start as int, i + 1);
                assert(decimal_value(p) > 255);
                assert forall|k: int| 0 <= k < p.len() implies is_digit(#[trigger] p[k]) by {
                    assert(p[k] == s@[start + k]);
                }
                assert(d.take(p.len() as int) =~= p);
                assert forall|k: int| 0 <= k < p.len() implies is_digit(#[trigger] d[k]) by {
                    assert(d[k] == p[k]);
                }
                lemma_prefix_value_bound(d, p.len() as int);
            }
            return None;
        }
        value = v;
        i += 1;
    }
    proof {
        assert(s@.subrange(start as int, b as int) =~= d);
        assert forall|k: int| 0 <= k < d.len() implies is_digit(#[trigger] d[k]) by {
            assert(d[k] == s@[start + k]);
        }
    }
    Some(value as u8)
}

proof fn lemma_prefix_value_bound(d: Seq<char>, m: int)
    requires
        0 < m <= d.len(),
        forall|i: int| 0 <= i < m ==> is_digit(#[trigger] d[i]),
    ensures
        (forall|i: int| 0 <= i < d.len() ==> is_digit(#[trigger] d[i])) ==> decimal_value(d)
            >= decimal_value(d.take(m)),
    decreases d.len() - m,
{
    if forall|i: int| 0 <= i < d.len() ==> is_digit(#[trigger] d[i]) {
        if m < d.len() {
            lemma_prefix_value_bound(d, m + 1);
            assert(d.take(m + 1).drop_last() =~= d.take(m));
            lemma_decimal_grows(d.take(m + 1));
        } else {
            assert(d.take(m) =~= d);
        }
    }
}

/// Parses `"r,g,b"` into a colour; white space around each part is ignored.
pub fn parse_rgb(rgb_str: &str) -> (r: Result<Rgb, RgbError>)
    ensures
        r matches Ok(c) ==> rgb_of(rgb_str@) == Ok::<(u8, u8, u8), RgbError>(
            (c.0[0], c.0[1], c.0[2]),
        ),
        r matches Err(e) ==> rgb_of(rgb_str@) == Err::<(u8, u8, u8), RgbError>(e),
{
    let n = rgb_str.unicode_len();
    let mut parts: Vec<Vec<char>> = Vec::new();
    let mut cur: Vec<char> = Vec::new();
    let mut i: usize = 0;
    while i < n
        invariant
            n == rgb_str@.len(),
            i <= n,
            split_commas(rgb_str@.take(i as int)) == parts@.map_values(|p: Vec<char>| p@).push(cur@),
        decreases n - i,
    {
        let c = rgb_str.get_char(i);
        proof {
            assert(rgb_str@.take(i + 1).drop_last() =~= rgb_str@.take(i as int));
        }
        if c == ',' {
            let done = cur;
            parts.push(done);
            cur = Vec::new();
        } else {
            cur.push(c);
        }
        proof {
            assert(split_commas(rgb_str@.take(i + 1)) =~= parts@.map_values(|p: Vec<char>| p@).push(cur@));
        }
        i += 1;
    }
    proof {
        assert(rgb_str@.take(n as int) =~= rgb_str@);
    }
    if parts.len() != 2 {
        return Err(RgbError::ComponentCount);
    }
    let r = parse_component(&parts[0]);
    let g = parse_component(&parts[1]);
    let b = parse_component(&cur);
    match (r, g, b) {
        (Some(r), Some(g), Some(b)) => Ok(Rgb([r, g, b])),
        _ => Err(RgbError::InvalidComponent),
    }
}

} // verus!
