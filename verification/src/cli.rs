//! Request construction of the `sweft` command-line client: percent-encoding
//! and the node URLs it calls.
use vstd::prelude::*;
use crate::text::{
    decimal, hex_upper, is_unreserved_byte, percent_encode_byte, percent_encoded, push_char,
    push_decimal, push_str, strip_trailing, strip_trailing_char, to_owned_string, url_encoded,
};

verus! {

/// The uppercase hexadecimal digit of `d < 16`.
fn hex_digit_upper(d: u8) -> (c: char)
    requires
        d < 16,
    ensures
        c == hex_upper(d),
{
    if d < 10 {
        (48u8 + d) as char
    } else {
        (55u8 + d) as char
    }
}

/// Percent-encodes `s` for a URL path segment or query value: every UTF-8
/// byte outside the unreserved set (RFC 3986 §2.3: letters, digits, `-`,
/// `_`, `.`, `~`) becomes `%` and two uppercase hexadecimal digits.
pub fn urlencoded(s: &str) -> (r: String)
    ensures
        r@ == url_encoded(s@),
{
    let b = s.as_bytes();
    let mut out = String::new();
    let mut i: usize = 0;
    while i < b.len()
        invariant
            i <= b@.len(),
            b@ == vstd::utf8::encode_utf8(s@),
            out@ == percent_encoded(b@.take(i as int)),
        decreases b@.len() - i,
    {
        let x = b[i];
        proof {
            assert(b@.take(i as int + 1).drop_last() =~= b@.take(i as int));
        }
        if (48u8 <= x && x <= 57u8) || (65u8 <= x && x <= 90u8) || (97u8 <= x && x <= 122u8) || x
            == 45u8 || x == 46u8 || x == 95u8 || x == 126u8 {
            push_char(&mut out, x as char);
            proof {
                assert(is_unreserved_byte(x));
                assert(percent_encoded(b@.take(i as int)).push(x as char) =~= percent_encoded(
                    b@.take(i as int),
                ) + percent_encode_byte(x));
            }
        } else {
            push_char(&mut out, '%');
            push_char(&mut out, hex_digit_upper(x / 16));
            push_char(&mut out, hex_digit_upper(x % 16));
            proof {
                assert(percent_encoded(b@.take(i as int)).push('%').push(hex_upper(x / 16)).push(
                    hex_upper(x % 16),
                ) =~= percent_encoded(b@.take(i as int)) + percent_encode_byte(x));
            }
        }
        i = i + 1;
    }
    proof {
        assert(b@.take(b@.len() as int) =~= b@);
    }
    out
}

/// `node` without trailing `/`, then `path`.
pub open spec fn node_endpoint(node: Seq<char>, path: Seq<char>) -> Seq<char> {
    strip_trailing(node, '/') + path
}

/// The registration URL of `did` on `node`.
pub fn register_url(node: &str, did: &str) -> (r: String)
    ensures
        r@ == node_endpoint(node@, "/v1/agents/"@) + url_encoded(did@),
{
    let mut r = strip_trailing_char(node, '/');
    push_str(&mut r, "/v1/agents/");
    push_str(&mut r, urlencoded(did).as_str());
    proof {
        reveal_strlit("/v1/agents/");
    }
    r
}

/// The submission URL of `node`.
pub fn submit_url(node: &str) -> (r: String)
    ensures
        r@ == node_endpoint(node@, "/v1/units"@),
{
    let mut r = strip_trailing_char(node, '/');
    push_str(&mut r, "/v1/units");
    proof {
        reveal_strlit("/v1/units");
    }
    r
}

/// The URL of the unit `id` on `node`.
pub fn unit_url(node: &str, id: &str) -> (r: String)
    ensures
        r@ == node_endpoint(node@, "/v1/units/"@) + url_encoded(id@),
{
    let mut r = strip_trailing_char(node, '/');
    push_str(&mut r, "/v1/units/");
    push_str(&mut r, urlencoded(id).as_str());
    proof {
        reveal_strlit("/v1/units/");
    }
    r
}

/// The filters of a listing fetch.
#[derive(Debug, Clone, PartialEq, Eq)]
pub struct FetchFilters {
    /// Comma-separated unit types.
    pub unit_type: Option<String>,
    /// Exact author.
    pub author: Option<String>,
    /// Lower bound on `created_at`.
    pub since: Option<String>,
    /// Pagination cursor.
    pub after: Option<String>,
    /// Page size.
    pub limit: Option<u32>,
}

/// The query pairs of the present filters, in the order type, author,
/// since, after, limit.
pub open spec fn query_pairs(f: FetchFilters) -> Seq<(Seq<char>, Seq<char>)> {
    let a: Seq<(Seq<char>, Seq<char>)> = match f.unit_type {
        Some(t) => seq![("type"@, t@)],
        None => Seq::empty(),
    };
    let b = match f.author {
        Some(x) => a.push(("author"@, x@)),
        None => a,
    };
    let c = match f.since {
        Some(x) => b.push(("since"@, x@)),
        None => b,
    };
    let d = match f.after {
        Some(x) => c.push(("after"@, x@)),
        None => c,
    };
    match f.limit {
        Some(l) => d.push(("limit"@, decimal(l as nat))),
        None => d,
    }
}

/// The query string of `pairs`: each `key=value` with the value
/// percent-encoded, the first after `?`, the others after `&`.
pub open spec fn query_string(pairs: Seq<(Seq<char>, Seq<char>)>) -> Seq<char>
    decreases pairs.len(),
{
    if pairs.len() == 0 {
        Seq::empty()
    } else {
        let sep = if pairs.len() == 1 {
            '?'
        } else {
            '&'
        };
        query_string(pairs.drop_last()) + seq![sep] + pairs.last().0 + seq!['='] + url_encoded(
            pairs.last().1,
        )
    }
}

/// Appends the pair `key=value` to a query string holding `count` pairs.
fn push_pair(out: &mut String, count: usize, key: &str, value: &str)
    ensures
        final(out)@ == old(out)@ + seq![
            if count == 0 {
                '?'
            } else {
                '&'
            },
        ] + key@ + seq!['='] + url_encoded(value@),
{
    if count == 0 {
        push_char(out, '?');
    } else {
        push_char(out, '&');
    }
    push_str(out, key);
    push_char(out, '=');
    push_str(out, urlencoded(value).as_str());
    proof {
        assert(old(out)@.push(
            if count == 0 {
                '?'
            } else {
                '&'
            },
        ) + key@ + seq!['='] + url_encoded(value@) =~= old(out)@ + seq![
            if count == 0 {
                '?'
            } else {
                '&'
            },
        ] + key@ + seq!['='] + url_encoded(value@));
    }
}

/// The listing URL of `node` with the query of `filters`.
pub fn list_url(node: &str, filters: &FetchFilters) -> (r: String)
    ensures
        r@ == node_endpoint(node@, "/v1/units"@) + query_string(query_pairs(*filters)),
{
    let mut r = submit_url(node);
    let ghost base = r@;
    let mut q = String::new();
    let mut n: usize = 0;
    let ghost mut pairs: Seq<(Seq<char>, Seq<char>)> = Seq::empty();
    assert(q@ =~= query_string(pairs));
    proof {
        reveal_strlit("type");
        reveal_strlit("author");
        reveal_strlit("since");
        reveal_strlit("after");
        reveal_strlit("limit");
    }
    if let Some(t) = &filters.unit_type {
        push_pair(&mut q, n, "type", t.as_str());
        proof {
            pairs = pairs.push(("type"@, t@));
            assert(pairs.drop_last() =~= Seq::<(Seq<char>, Seq<char>)>::empty());
            assert(query_string(pairs.drop_last()) == Seq::<char>::empty());
            assert(q@ =~= query_string(pairs));
        }
        n = n + 1;
    }
    assert(q@ == query_string(pairs) && n == pairs.len());
    if let Some(a) = &filters.author {
        push_pair(&mut q, n, "author", a.as_str());
        proof {
            let old_pairs = pairs;
            pairs = pairs.push(("author"@, a@));
            assert(pairs.drop_last() =~= old_pairs);
        }
        n = n + 1;
    }
    assert(q@ == query_string(pairs) && n == pairs.len());
    if let Some(s) = &filters.since {
        push_pair(&mut q, n, "since", s.as_str());
        proof {
            let old_pairs = pairs;
            pairs = pairs.push(("since"@, s@));
            assert(pairs.drop_last() =~= old_pairs);
        }
        n = n + 1;
    }
    assert(q@ == query_string(pairs) && n == pairs.len());
    if let Some(c) = &filters.after {
        push_pair(&mut q, n, "after", c.as_str());
        proof {
            let old_pairs = pairs;
            pairs = pairs.push(("after"@, c@));
            assert(pairs.drop_last() =~= old_pairs);
        }
        n = n + 1;
    }
    assert(q@ == query_string(pairs) && n == pairs.len());
    if let Some(l) = filters.limit {
        let text = crate::text::u64_to_string(l as u64);
        push_pair(&mut q, n, "limit", text.as_str());
        proof {
            let old_pairs = pairs;
            pairs = pairs.push(("limit"@, decimal(l as nat)));
            assert(pairs.drop_last() =~= old_pairs);
        }
    }
    assert(q@ == query_string(pairs));
    assert(pairs =~= query_pairs(*filters));
    push_str(&mut r, q.as_str());
    r
}

/// The `Authorization` header value for a bearer token.
pub fn bearer(token: &str) -> (r: String)
    ensures
        r@ == "Bearer "@ + token@,
{
    let mut r = to_owned_string("Bearer ");
    push_str(&mut r, token);
    proof {
        reveal_strlit("Bearer ");
    }
    r
}

} // verus!
