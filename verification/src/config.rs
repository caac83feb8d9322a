//! Interpretation of the node's configuration values: the bootstrap peer
//! list, numeric settings with their defaults, and the generated-identity
//! sentinel.
use vstd::prelude::*;
use crate::auth::{split_char, split_on};
use crate::text::{chars_of, contains_text, str_contains, str_eq, trim, trimmed_range};

verus! {

/// The node id that asks for a generated `did:key` identity.
pub const GENERATE_NODE_ID: &'static str = "__generate__";

/// Whether the configured node id asks for a generated identity.
pub fn node_id_needs_generation(node_id: &str) -> (r: bool)
    ensures
        r == (node_id@ == "__generate__"@),
{
    proof {
        reveal_strlit("__generate__");
    }
    str_eq(node_id, GENERATE_NODE_ID)
}

/// The bootstrap peer URLs of a comma-separated list: each piece trimmed,
/// empty pieces dropped.
pub open spec fn bootstrap_list(s: Seq<char>) -> Seq<Seq<char>> {
    split_on(s, ',').map_values(|p: Seq<char>| trim(p)).filter(|p: Seq<char>| p.len() > 0)
}

/// Parses the comma-separated bootstrap peer list.
pub fn parse_bootstrap_peers(s: &str) -> (r: Vec<String>)
    ensures
        r@.map_values(|x: String| x@) == bootstrap_list(s@),
{
    let pieces = split_char(s, ',');
    let ghost trimmed = split_on(s@, ',').map_values(|p: Seq<char>| trim(p));
    let ghost keep = |p: Seq<char>| p.len() > 0;
    let mut out: Vec<String> = Vec::new();
    let mut i: usize = 0;
    while i < pieces.len()
        invariant
            i <= pieces@.len(),
            pieces@.map_values(|x: String| x@) == split_on(s@, ','),
            trimmed == split_on(s@, ',').map_values(|p: Seq<char>| trim(p)),
            trimmed.len() == pieces@.len(),
            keep == (|p: Seq<char>| p.len() > 0),
            out@.map_values(|x: String| x@) == trimmed.take(i as int).filter(keep),
        decreases pieces@.len() - i,
    {
        proof {
            reveal(Seq::filter);
            assert(trimmed.take(i as int + 1).drop_last() =~= trimmed.take(i as int));
            assert(pieces@.map_values(|x: String| x@)[i as int] == pieces@[i as int]@);
            assert(trimmed[i as int] == trim(pieces@[i as int]@));
        }
        let v = chars_of(pieces[i].as_str());
        let t = trimmed_range(&v, 0, v.len());
        proof {
            assert(v@.subrange(0, v@.len() as int) =~= pieces@[i as int]@);
        }
        if !t.as_str().is_empty() {
            let ghost before = out@.map_values(|x: String| x@);
            out.push(t);
            proof {
                assert(out@.map_values(|x: String| x@) =~= before.push(trimmed[i as int]));
            }
        }
        i = i + 1;
    }
    proof {
        assert(trimmed.take(pieces@.len() as int) =~= trimmed);
    }
    out
}

/// Whether `c` is an ASCII digit.
pub open spec fn is_digit(c: char) -> bool {
    '0' <= c && c <= '9'
}

/// The value of an ASCII digit.
pub open spec fn digit_value(c: char) -> nat {
    if c == '0' {
        0
    } else if c == '1' {
        1
    } else if c == '2' {
        2
    } else if c == '3' {
        3
    } else if c == '4' {
        4
    } else if c == '5' {
        5
    } else if c == '6' {
        6
    } else if c == '7' {
        7
    } else if c == '8' {
        8
    } else {
        9
    }
}

/// The value of a run of decimal digits.
pub open spec fn digits_value(s: Seq<char>) -> nat
    decreases s.len(),
{
    if s.len() == 0 {
        0
    } else {
        digits_value(s.drop_last()) * 10 + digit_value(s.last())
    }
}

/// The digits of an unsigned number text: after an optional `+`.
pub open spec fn unsigned_digits(s: Seq<char>) -> Seq<char> {
    if s.len() > 0 && s[0] == '+' {
        s.skip(1)
    } else {
        s
    }
}

/// What `str::parse::<u64>` gives for `s`: an optional `+` and one or more
/// ASCII digits whose value fits.
pub open spec fn parsed_u64(s: Seq<char>) -> Option<u64> {
    let d = unsigned_digits(s);
    if d.len() > 0 && (forall|i: int| 0 <= i < d.len() ==> is_digit(#[trigger] d[i]))
        && digits_value(d) <= u64::MAX {
        Some(digits_value(d) as u64)
    } else {
        None
    }
}

proof fn lemma_digits_grow(s: Seq<char>, i: int, j: int)
    requires
        0 <= i <= j <= s.len(),
    ensures
        digits_value(s.take(i)) <= digits_value(s.take(j)),
    decreases j - i,
{
    if i < j {
        lemma_digits_grow(s, i, j - 1);
        assert(s.take(j).drop_last() =~= s.take(j - 1));
    }
}

/// The value of a digit character.
fn digit_of(c: char) -> (r: u64)
    requires
        is_digit(c),
    ensures
        r == digit_value(c),
{
    if c == '0' {
        0
    } else if c == '1' {
        1
    } else if c == '2' {
        2
    } else if c == '3' {
        3
    } else if c == '4' {
        4
    } else if c == '5' {
        5
    } else if c == '6' {
        6
    } else if c == '7' {
        7
    } else if c == '8' {
        8
    } else {
        9
    }
}

/// Parses an unsigned decimal number as `str::parse::<u64>` does.
pub fn parse_u64(s: &str) -> (r: Option<u64>)
    ensures
        r == parsed_u64(s@),
{
    let v = chars_of(s);
    let start: usize = if v.len() > 0 && v[0] == '+' {
        1
    } else {
        0
    };
    let ghost d = unsigned_digits(s@);
    proof {
        assert(d =~= v@.skip(start as int));
    }
    if start == v.len() {
        return None;
    }
    let mut acc: u64 = 0;
    let mut i: usize = start;
    while i < v.len()
        invariant
            start <= i <= v@.len(),
            v@ == s@,
            d == v@.skip(start as int),
            d == unsigned_digits(s@),
            acc == digits_value(d.take(i - start)),
            forall|k: int| 0 <= k < i - start ==> is_digit(#[trigger] d[k]),
        decreases v@.len() - i,
    {
        let c = v[i];
        proof {
            assert(d[i - start] == c);
            assert(d.take(i - start + 1).drop_last() =~= d.take(i - start));
        }
        if !('0' <= c && c <= '9') {
            proof {
                assert(!is_digit(d[i - start]));
            }
            return None;
        }
        let dv = digit_of(c);
        let next = match acc.checked_mul(10) {
            Some(m) => m.checked_add(dv),
            None => None,
        };
        match next {
            Some(n) => {
                acc = n;
            },
            None => {
                proof {
                    assert(digits_value(d.take(i - start + 1)) > u64::MAX);
                    lemma_digits_grow(d, i - start + 1, d.len() as int);
                    assert(d.take(d.len() as int) =~= d);
                }
                return None;
            },
        }
        i = i + 1;
    }
    proof {
        assert(d.take(d.len() as int) =~= d);
    }
    Some(acc)
}

/// A numeric setting: the parsed value of `value`, or `default` when it is
/// absent or not a number.
pub fn setting_u64(value: Option<&str>, default: u64) -> (r: u64)
    ensures
        r == match value {
            Some(v) => match parsed_u64(v@) {
                Some(n) => n,
                None => default,
            },
            None => default,
        },
{
    match value {
        Some(v) => match parse_u64(v) {
            Some(n) => n,
            None => default,
        },
        None => default,
    }
}

/// A numeric setting of type `u32`: as [`setting_u64`], and the default
/// too when the value does not fit.
pub fn setting_u32(value: Option<&str>, default: u32) -> (r: u32)
    ensures
        r == match value {
            Some(v) => match parsed_u64(v@) {
                Some(n) => if n <= u32::MAX {
                    n as u32
                } else {
                    default
                },
                None => default,
            },
            None => default,
        },
{
    match value {
        Some(v) => match parse_u64(v) {
            Some(n) => if n <= 0xffff_ffffu64 {
                n as u32
            } else {
                default
            },
            None => default,
        },
        None => default,
    }
}

/// Whether the API base points at a wildcard or loopback address that
/// other nodes cannot reach.
pub fn api_base_may_be_unroutable(api_base: &str) -> (r: bool)
    ensures
        r == (contains_text(api_base@, "0.0.0.0"@) || contains_text(api_base@, "127.0.0.1"@)),
{
    str_contains(api_base, "0.0.0.0") || str_contains(api_base, "127.0.0.1")
}

} // verus!
