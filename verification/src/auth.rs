//! HTTP Signature authentication (draft-cavage-http-signatures-12).
//!
//! The `Signature` header names the signer (`keyId`), the algorithm, the
//! signed headers and the `z`-prefixed base58btc Ed25519 signature. The
//! signing string is one `name: value` line per signed header, joined by
//! newlines, where `(request-target)` stands for the lowercase method and the
//! path. A `Date` header more than 300 seconds from the server clock is
//! refused, against replay.
use vstd::prelude::*;
use crate::external::{
    ed25519_sign, ed25519_verify, http_date_seconds, now_http_date, now_utc, rfc3339_instant,
    spec_ed25519_verifies, spec_http_date_seconds, spec_rfc3339_instant, spec_str_debug,
    str_debug, bs58_encode, spec_bs58_encode, spec_ed25519_sign,
};
use crate::signing::{
    decode_ed25519_multibase, decode_signature, key_decoding, sig_decoding, KeyDecodeError, KeyDecoding,
    SigDecodeError, SigDecoding,
};
use crate::api::AgentProfile;
use crate::storage::{storage_error_text, StorageError};
use crate::text::{
    chars_of, copy_string, decimal, is_prefix, is_white_space, push_char, push_decimal_u128, push_str, str_eq,
    string_from_chars, string_from_range, strip_prefix_str, to_owned_string, trim, trimmed_range,
};

verus! {

/// An authentication failure, answered with HTTP 401.
#[derive(Debug, Clone, PartialEq, Eq)]
pub struct AuthError(pub String);

/// The caller of a request that requires a valid agent signature.
#[derive(Debug, Clone, PartialEq, Eq)]
pub struct RequireAuth {
    /// The DID named by the signature's `keyId`.
    pub did: String,
}

/// The caller of a request that may carry a valid agent signature.
#[derive(Debug, Clone, PartialEq, Eq)]
pub struct OptionalAuth(pub Option<String>);

/// A request delivered by a node whose signature verified against the key in
/// its `did:key`.
#[derive(Debug, Clone, PartialEq, Eq)]
pub struct NodeAuth;

/// What the signature check reads of a request: its method, its path with
/// query (absent when the URI has none), and its headers in order, each with
/// its lowercase name and its value when that is visible ASCII text.
#[derive(Debug, Clone)]
pub struct RequestHead {
    /// The request method, e.g. `POST`.
    pub method: String,
    /// The path and query of the request URI.
    pub path_and_query: Option<String>,
    /// The headers, lowercase names first.
    pub headers: Vec<(String, Option<String>)>,
}

/// The view of a request head.
pub struct HeadView {
    pub method: Seq<char>,
    pub path_and_query: Option<Seq<char>>,
    pub headers: Seq<(Seq<char>, Option<Seq<char>>)>,
}

/// The view of a header entry.
pub open spec fn header_view(h: (String, Option<String>)) -> (Seq<char>, Option<Seq<char>>) {
    (
        h.0@,
        match h.1 {
            Some(v) => Some(v@),
            None => None,
        },
    )
}

impl View for RequestHead {
    type V = HeadView;

    open spec fn view(&self) -> HeadView {
        HeadView {
            method: self.method@,
            path_and_query: match self.path_and_query {
                Some(p) => Some(p@),
                None => None,
            },
            headers: self.headers@.map_values(|h: (String, Option<String>)| header_view(h)),
        }
    }
}

/// `c` in lowercase when it is an ASCII capital.
pub open spec fn lower_char(c: char) -> char {
    if 'A' <= c && c <= 'Z' {
        ((c as u8) + 32u8) as char
    } else {
        c
    }
}

/// `s` with its ASCII capitals in lowercase.
pub open spec fn ascii_lower(s: Seq<char>) -> Seq<char> {
    s.map_values(|c: char| lower_char(c))
}

/// `s` with its ASCII capitals in lowercase.
pub fn to_ascii_lower(s: &str) -> (r: String)
    ensures
        r@ == ascii_lower(s@),
{
    let v = chars_of(s);
    let mut r = String::new();
    let mut i: usize = 0;
    while i < v.len()
        invariant
            i <= v@.len(),
            v@ == s@,
            r@ == ascii_lower(s@.take(i as int)),
        decreases v@.len() - i,
    {
        let c = v[i];
        let l = if 'A' <= c && c <= 'Z' {
            ((c as u8) + 32u8) as char
        } else {
            c
        };
        push_char(&mut r, l);
        proof {
            assert(ascii_lower(s@.take(i as int + 1)) =~= ascii_lower(s@.take(i as int)).push(
                lower_char(c),
            ));
        }
        i = i + 1;
    }
    proof {
        assert(s@.take(s@.len() as int) =~= s@);
    }
    r
}

/// The value of the first header named `name`, when it is text; `None`
/// when there is no such header or its first value is not text.
pub open spec fn header_value(
    headers: Seq<(Seq<char>, Option<Seq<char>>)>,
    name: Seq<char>,
) -> Option<Seq<char>>
    decreases headers.len(),
{
    if headers.len() == 0 {
        None
    } else if headers[0].0 == name {
        headers[0].1
    } else {
        header_value(headers.drop_first(), name)
    }
}

/// The value of the first header named `name` (compared in lowercase).
pub fn get_header(head: &RequestHead, name: &str) -> (r: Option<String>)
    ensures
        match r {
            Some(v) => header_value(head@.headers, ascii_lower(name@)) == Some(v@),
            None => header_value(head@.headers, ascii_lower(name@)) is None,
        },
{
    let key = to_ascii_lower(name);
    let ghost hs = head@.headers;
    let mut i: usize = 0;
    assert(hs.skip(0) =~= hs);
    while i < head.headers.len()
        invariant
            i <= head.headers@.len(),
            hs == head@.headers,
            hs.len() == head.headers@.len(),
            key@ == ascii_lower(name@),
            header_value(hs.skip(i as int), key@) == header_value(hs, key@),
        decreases head.headers@.len() - i,
    {
        proof {
            assert(hs[i as int] == header_view(head.headers@[i as int]));
            assert(hs.skip(i as int).drop_first() =~= hs.skip(i as int + 1));
            assert(hs.skip(i as int)[0] == hs[i as int]);
        }
        if str_eq(head.headers[i].0.as_str(), key.as_str()) {
            proof {
                assert(header_value(hs.skip(i as int), key@) == hs[i as int].1);
            }
            return match &head.headers[i].1 {
                Some(v) => Some(copy_string(v)),
                None => None,
            };
        }
        i = i + 1;
    }
    None
}

// ---------------------------------------------------------------------------
// The Signature header
// ---------------------------------------------------------------------------

/// The fields of a `Signature` header.
#[derive(Debug, Clone, PartialEq, Eq)]
pub struct ParsedSignature {
    /// The signer's identifier.
    pub key_id: String,
    /// The signature algorithm.
    pub algorithm: String,
    /// The names of the signed headers, in order.
    pub headers: Vec<String>,
    /// The signature, `z` + base58btc.
    pub signature: String,
}

/// The fields read so far from a `Signature` header.
pub struct SigFields {
    pub key_id: Option<Seq<char>>,
    pub algorithm: Option<Seq<char>>,
    pub headers: Option<Seq<Seq<char>>>,
    pub signature: Option<Seq<char>>,
}

/// The state of splitting `s` on `c` after reading it all: the finished
/// pieces and the piece being read.
pub open spec fn split_state(s: Seq<char>, c: char) -> (Seq<Seq<char>>, Seq<char>)
    decreases s.len(),
{
    if s.len() == 0 {
        (Seq::empty(), Seq::empty())
    } else {
        let (done, cur) = split_state(s.drop_last(), c);
        if s.last() == c {
            (done.push(cur), Seq::empty())
        } else {
            (done, cur.push(s.last()))
        }
    }
}

/// The pieces of `s` between the occurrences of `c`, empty ones included
/// (`str::split` with a `char`).
pub open spec fn split_on(s: Seq<char>, c: char) -> Seq<Seq<char>> {
    split_state(s, c).0.push(split_state(s, c).1)
}

/// The pieces of `s` between the occurrences of `c`.
pub fn split_char(s: &str, c: char) -> (r: Vec<String>)
    ensures
        r@.map_values(|x: String| x@) == split_on(s@, c),
{
    let v = chars_of(s);
    let mut done: Vec<String> = Vec::new();
    let mut cur: Vec<char> = Vec::new();
    let mut i: usize = 0;
    while i < v.len()
        invariant
            i <= v@.len(),
            v@ == s@,
            (done@.map_values(|x: String| x@), cur@) == split_state(s@.take(i as int), c),
        decreases v@.len() - i,
    {
        proof {
            assert(s@.take(i as int + 1).drop_last() =~= s@.take(i as int));
        }
        if v[i] == c {
            let piece = string_from_chars(&cur);
            done.push(piece);
            cur = Vec::new();
            proof {
                assert(done@.map_values(|x: String| x@) =~= split_state(s@.take(i as int), c).0.push(
                    split_state(s@.take(i as int), c).1,
                ));
            }
        } else {
            cur.push(v[i]);
        }
        i = i + 1;
    }
    proof {
        assert(s@.take(s@.len() as int) =~= s@);
    }
    let last = string_from_chars(&cur);
    let ghost before = done@.map_values(|x: String| x@);
    done.push(last);
    proof {
        assert(done@.map_values(|x: String| x@) =~= before.push(last@));
    }
    done
}

/// The state of splitting a `Signature` header value after reading `s`: the
/// finished (trimmed) parameters, the parameter being read, and whether the
/// reader is inside double quotes.
pub open spec fn param_state(s: Seq<char>) -> (Seq<Seq<char>>, Seq<char>, bool)
    decreases s.len(),
{
    if s.len() == 0 {
        (Seq::empty(), Seq::empty(), false)
    } else {
        let (parts, cur, inq) = param_state(s.drop_last());
        let ch = s.last();
        if ch == '"' {
            (parts, cur.push(ch), !inq)
        } else if ch == ',' && !inq {
            (parts.push(trim(cur)), Seq::empty(), inq)
        } else {
            (parts, cur.push(ch), inq)
        }
    }
}

/// The parameters of a `Signature` header value: split at commas outside
/// double quotes, each trimmed; a last parameter that is only white space is
/// dropped.
pub open spec fn signature_params(s: Seq<char>) -> Seq<Seq<char>> {
    let (parts, cur, _inq) = param_state(s);
    if trim(cur).len() > 0 {
        parts.push(trim(cur))
    } else {
        parts
    }
}

/// Splits a `Signature` header value into its parameters.
pub fn split_signature_params(s: &str) -> (r: Vec<String>)
    ensures
        r@.map_values(|x: String| x@) == signature_params(s@),
{
    let v = chars_of(s);
    let mut parts: Vec<String> = Vec::new();
    let mut cur: Vec<char> = Vec::new();
    let mut in_quotes = false;
    let mut i: usize = 0;
    while i < v.len()
        invariant
            i <= v@.len(),
            v@ == s@,
            (parts@.map_values(|x: String| x@), cur@, in_quotes) == param_state(s@.take(i as int)),
        decreases v@.len() - i,
    {
        proof {
            assert(s@.take(i as int + 1).drop_last() =~= s@.take(i as int));
        }
        let ch = v[i];
        if ch == '"' {
            in_quotes = !in_quotes;
            cur.push(ch);
        } else if ch == ',' && !in_quotes {
            let piece = trimmed_range(&cur, 0, cur.len());
            let ghost before = parts@.map_values(|x: String| x@);
            parts.push(piece);
            proof {
                assert(cur@.subrange(0, cur@.len() as int) =~= cur@);
                assert(parts@.map_values(|x: String| x@) =~= before.push(trim(cur@)));
            }
            cur = Vec::new();
        } else {
            cur.push(ch);
        }
        i = i + 1;
    }
    proof {
        assert(s@.take(s@.len() as int) =~= s@);
    }
    let last = trimmed_range(&cur, 0, cur.len());
    proof {
        assert(cur@.subrange(0, cur@.len() as int) =~= cur@);
    }
    if last.as_str().is_empty() {
        parts
    } else {
        let ghost before = parts@.map_values(|x: String| x@);
        parts.push(last);
        proof {
            assert(parts@.map_values(|x: String| x@) =~= before.push(trim(cur@)));
        }
        parts
    }
}

/// What stripping surrounding double quotes from the trimmed `s` gives.
pub open spec fn unquoted(s: Seq<char>) -> Result<Seq<char>, Seq<char>> {
    let t = trim(s);
    if t.len() >= 2 && t[0] == '"' && t.last() == '"' {
        Ok(t.subrange(1, t.len() - 1))
    } else {
        Err("expected quoted string, got: "@ + spec_str_debug(t))
    }
}

/// Strips surrounding double quotes from a parameter value.
pub fn unquote(s: &str) -> (r: Result<String, String>)
    ensures
        match (r, unquoted(s@)) {
            (Ok(a), Ok(b)) => a@ == b,
            (Err(a), Err(b)) => a@ == b,
            _ => false,
        },
{
    let v = chars_of(s);
    let t = trimmed_range(&v, 0, v.len());
    proof {
        assert(v@.subrange(0, v@.len() as int) =~= s@);
    }
    let tv = chars_of(t.as_str());
    let n = tv.len();
    if n >= 2 && tv[0] == '"' && tv[n - 1] == '"' {
        Ok(string_from_range(&tv, 1, n - 1))
    } else {
        let mut m = to_owned_string("expected quoted string, got: ");
        let d = str_debug(t.as_str());
        push_str(&mut m, d.as_str());
        Err(m)
    }
}

/// Whether `t` holds no double quote and no comma.
pub open spec fn plain_text(t: Seq<char>) -> bool
    decreases t.len(),
{
    t.len() == 0 || (t.last() != '"' && t.last() != ',' && plain_text(t.drop_last()))
}

/// Reading text without quotes or commas only extends the parameter being
/// read.
proof fn lemma_param_state_plain(s: Seq<char>, t: Seq<char>)
    requires
        plain_text(t),
    ensures
        param_state(s + t) == (param_state(s).0, param_state(s).1 + t, param_state(s).2),
    decreases t.len(),
{
    if t.len() == 0 {
        assert(s + t =~= s);
        assert(param_state(s).1 + t =~= param_state(s).1);
    } else {
        lemma_param_state_plain(s, t.drop_last());
        assert((s + t).drop_last() =~= s + t.drop_last());
        assert((s + t).last() == t.last());
        assert(param_state(s).1 + t.drop_last() + seq![t.last()] =~= param_state(s).1 + t);
        assert((param_state(s).1 + t.drop_last()).push(t.last()) =~= param_state(s).1 + t);
    }
}

/// Reading text without quotes inside a quoted value only extends the
/// parameter being read, commas included.
proof fn lemma_param_state_inquote(s: Seq<char>, t: Seq<char>)
    requires
        lacks_char(t, '"'),
        param_state(s).2,
    ensures
        param_state(s + t) == (param_state(s).0, param_state(s).1 + t, true),
    decreases t.len(),
{
    if t.len() == 0 {
        assert(s + t =~= s);
        assert(param_state(s).1 + t =~= param_state(s).1);
    } else {
        lemma_param_state_inquote(s, t.drop_last());
        assert((s + t).drop_last() =~= s + t.drop_last());
        assert((s + t).last() == t.last());
        assert((param_state(s).1 + t.drop_last()).push(t.last()) =~= param_state(s).1 + t);
    }
}

/// Text with no quote and no comma has no quote.
proof fn lemma_plain_lacks_quote(t: Seq<char>)
    requires
        plain_text(t),
    ensures
        lacks_char(t, '"'),
    decreases t.len(),
{
    if t.len() > 0 {
        lemma_plain_lacks_quote(t.drop_last());
    }
}

/// Reading a quote opens or closes a quoted value.
proof fn lemma_param_state_quote(s: Seq<char>)
    ensures
        param_state(s + seq!['"']) == (
            param_state(s).0,
            param_state(s).1.push('"'),
            !param_state(s).2,
        ),
{
    assert((s + seq!['"']).drop_last() =~= s);
}

/// Reading a comma outside quotes ends the parameter being read.
proof fn lemma_param_state_comma(s: Seq<char>)
    requires
        !param_state(s).2,
    ensures
        param_state(s + seq![',']) == (
            param_state(s).0.push(trim(param_state(s).1)),
            Seq::<char>::empty(),
            false,
        ),
{
    assert((s + seq![',']).drop_last() =~= s);
}

/// Reading `a"b"` with `a` plain and `b` free of quotes, outside quotes,
/// extends the parameter being read by it.
proof fn lemma_param_state_quoted(s: Seq<char>, a: Seq<char>, b: Seq<char>)
    requires
        plain_text(a),
        lacks_char(b, '"'),
        !param_state(s).2,
    ensures
        param_state(s + (a + seq!['"'] + b + seq!['"'])) == (
            param_state(s).0,
            param_state(s).1 + (a + seq!['"'] + b + seq!['"']),
            false,
        ),
{
    let (ps, cur, _q) = param_state(s);
    lemma_param_state_plain(s, a);
    lemma_param_state_quote(s + a);
    lemma_param_state_inquote(s + a + seq!['"'], b);
    lemma_param_state_quote(s + a + seq!['"'] + b);
    assert(s + (a + seq!['"'] + b + seq!['"']) =~= s + a + seq!['"'] + b + seq!['"']);
    assert((cur + a).push('"') =~= cur + a + seq!['"']);
    assert((cur + a + seq!['"'] + b).push('"') =~= cur + (a + seq!['"'] + b + seq!['"']));
}

/// A text that starts and ends with no white space is its own trim.
proof fn lemma_trim_id(t: Seq<char>)
    requires
        t.len() > 0,
        !is_white_space(t[0]),
        !is_white_space(t.last()),
    ensures
        trim(t) == t,
{
}

/// Whether `t` does not hold `c`.
pub open spec fn lacks_char(t: Seq<char>, c: char) -> bool
    decreases t.len(),
{
    t.len() == 0 || (t.last() != c && lacks_char(t.drop_last(), c))
}

/// Concatenating plain texts gives a plain text.
proof fn lemma_plain_concat(a: Seq<char>, b: Seq<char>)
    requires
        plain_text(a),
        plain_text(b),
    ensures
        plain_text(a + b),
    decreases b.len(),
{
    if b.len() == 0 {
        assert(a + b =~= a);
    } else {
        lemma_plain_concat(a, b.drop_last());
        assert((a + b).drop_last() =~= a + b.drop_last());
    }
}

/// Splitting text without the separator only extends the piece being read.
proof fn lemma_split_state_plain(s: Seq<char>, t: Seq<char>, c: char)
    requires
        lacks_char(t, c),
    ensures
        split_state(s + t, c) == (split_state(s, c).0, split_state(s, c).1 + t),
    decreases t.len(),
{
    if t.len() == 0 {
        assert(s + t =~= s);
        assert(split_state(s, c).1 + t =~= split_state(s, c).1);
    } else {
        lemma_split_state_plain(s, t.drop_last(), c);
        assert((s + t).drop_last() =~= s + t.drop_last());
        assert((split_state(s, c).1 + t.drop_last()).push(t.last()) =~= split_state(s, c).1 + t);
    }
}

/// The signed-header list of outbound requests splits into its three names.
proof fn lemma_outbound_header_names()
    ensures
        split_on("(request-target) host date"@, ' ') == seq![
            "(request-target)"@,
            "host"@,
            "date"@,
        ],
{
    reveal_strlit("(request-target) host date");
    reveal_strlit("(request-target)");
    reveal_strlit("host");
    reveal_strlit("date");
    reveal_with_fuel(lacks_char, 20);
    let rt = "(request-target)"@;
    let h = "host"@;
    let d = "date"@;
    let e = Seq::<char>::empty();
    assert("(request-target) host date"@ =~= rt + seq![' '] + h + seq![' '] + d);
    assert(lacks_char(rt, ' '));
    assert(lacks_char(h, ' '));
    assert(lacks_char(d, ' '));
    lemma_split_state_plain(e, rt, ' ');
    assert(e + rt =~= rt);
    assert((rt + seq![' ']).drop_last() =~= rt);
    lemma_split_state_plain(rt + seq![' '], h, ' ');
    assert((rt + seq![' '] + h + seq![' ']).drop_last() =~= rt + seq![' '] + h);
    lemma_split_state_plain(rt + seq![' '] + h + seq![' '], d, ' ');
    assert(e + h =~= h);
    assert(e + d =~= d);
}

/// The `Signature` header of an outbound request, for the key id `did` and
/// the base58 signature text `sig_text`.
pub open spec fn outbound_header_text(did: Seq<char>, sig_text: Seq<char>) -> Seq<char> {
    "keyId=\""@ + did + "\",algorithm=\"ed25519\",headers=\"(request-target) host date\",signature=\"z"@
        + sig_text + "\""@
}

/// The literal parts of an outbound `Signature` header hold no quote and no
/// comma.
proof fn lemma_outbound_literals_plain()
    ensures
        plain_text("keyId="@),
        plain_text("algorithm="@),
        plain_text("ed25519"@),
        plain_text("headers="@),
        plain_text("(request-target) host date"@),
        plain_text("signature="@),
        plain_text(seq!['z']),
{
    reveal_strlit("keyId=");
    reveal_strlit("algorithm=");
    reveal_strlit("ed25519");
    reveal_strlit("headers=");
    reveal_strlit("(request-target) host date");
    reveal_strlit("signature=");
    reveal_with_fuel(plain_text, 28);
}

/// An outbound `Signature` header is its four parameters joined by commas.
proof fn lemma_outbound_header_pieces(did: Seq<char>, sig_text: Seq<char>)
    ensures
        outbound_header_text(did, sig_text) =~= ("keyId="@ + seq!['"'] + did + seq!['"']) + seq![','] + (
        "algorithm="@ + seq!['"'] + "ed25519"@ + seq!['"']) + seq![','] + ("headers="@ + seq!['"']
            + "(request-target) host date"@ + seq!['"']) + seq![','] + ("signature="@ + seq!['"'] + (
        seq!['z'] + sig_text) + seq!['"']),
{
    reveal_strlit("keyId=\"");
    reveal_strlit("\",algorithm=\"ed25519\",headers=\"(request-target) host date\",signature=\"z");
    reveal_strlit("\"");
    reveal_strlit("keyId=");
    reveal_strlit("algorithm=");
    reveal_strlit("ed25519");
    reveal_strlit("headers=");
    reveal_strlit("(request-target) host date");
    reveal_strlit("signature=");
}

/// The parameters of an outbound `Signature` header, in order.
proof fn lemma_outbound_params(did: Seq<char>, sig_text: Seq<char>)
    requires
        lacks_char(did, '"'),
        plain_text(sig_text),
    ensures
        signature_params(outbound_header_text(did, sig_text)) == seq![
            "keyId="@ + seq!['"'] + did + seq!['"'],
            "algorithm="@ + seq!['"'] + "ed25519"@ + seq!['"'],
            "headers="@ + seq!['"'] + "(request-target) host date"@ + seq!['"'],
            "signature="@ + seq!['"'] + (seq!['z'] + sig_text) + seq!['"'],
        ],
{
    lemma_outbound_literals_plain();
    lemma_outbound_header_pieces(did, sig_text);
    let k = "keyId="@;
    let a = "algorithm="@;
    let ed = "ed25519"@;
    let h = "headers="@;
    let names = "(request-target) host date"@;
    let sg = "signature="@;
    lemma_plain_concat(seq!['z'], sig_text);
    let z = seq!['z'] + sig_text;
    lemma_plain_lacks_quote(ed);
    lemma_plain_lacks_quote(names);
    lemma_plain_lacks_quote(z);
    let q = seq!['"'];
    let c = seq![','];
    let p1 = k + q + did + q;
    let p2 = a + q + ed + q;
    let p3 = h + q + names + q;
    let p4 = sg + q + z + q;
    let e = Seq::<char>::empty();
    lemma_param_state_quoted(e, k, did);
    assert(e + p1 =~= p1);
    lemma_param_state_comma(p1);
    lemma_param_state_quoted(p1 + c, a, ed);
    assert(e + p2 =~= p2);
    lemma_param_state_comma(p1 + c + p2);
    lemma_param_state_quoted(p1 + c + p2 + c, h, names);
    assert(e + p3 =~= p3);
    lemma_param_state_comma(p1 + c + p2 + c + p3);
    lemma_param_state_quoted(p1 + c + p2 + c + p3 + c, sg, z);
    assert(e + p4 =~= p4);
    assert(k.len() > 0 && a.len() > 0 && h.len() > 0 && sg.len() > 0) by {
        reveal_strlit("keyId=");
        reveal_strlit("algorithm=");
        reveal_strlit("headers=");
        reveal_strlit("signature=");
    }
    assert(p1[0] == k[0] && p2[0] == a[0] && p3[0] == h[0] && p4[0] == sg[0]);
    assert(k[0] == 'k' && a[0] == 'a' && h[0] == 'h' && sg[0] == 's') by {
        reveal_strlit("keyId=");
        reveal_strlit("algorithm=");
        reveal_strlit("headers=");
        reveal_strlit("signature=");
    }
    lemma_trim_id(p1);
    lemma_trim_id(p2);
    lemma_trim_id(p3);
    lemma_trim_id(p4);
}

/// Unquoting `"v"`, with `v` plain, gives `v`.
proof fn lemma_unquote_plain(v: Seq<char>)
    ensures
        unquoted(seq!['"'] + v + seq!['"']) == Ok::<Seq<char>, Seq<char>>(v),
{
    let t = seq!['"'] + v + seq!['"'];
    lemma_trim_id(t);
    assert(t.subrange(1, t.len() - 1) =~= v);
}

/// A parameter `name"v"`, after the name, is the quoted value.
proof fn lemma_param_value(name: Seq<char>, v: Seq<char>)
    ensures
        is_prefix(name, name + seq!['"'] + v + seq!['"']),
        (name + seq!['"'] + v + seq!['"']).skip(name.len() as int) =~= seq!['"'] + v + seq!['"'],
{
    assert((name + seq!['"'] + v + seq!['"']).take(name.len() as int) =~= name);
}

/// The fields of a header with nothing read yet.
pub open spec fn no_fields() -> SigFields {
    SigFields { key_id: None, algorithm: None, headers: None, signature: None }
}

/// What reading the (trimmed) parameter `p` makes of the fields `acc`.
pub open spec fn apply_param(acc: SigFields, part: Seq<char>) -> Result<SigFields, Seq<char>> {
    let p = trim(part);
    if is_prefix("keyId="@, p) {
        match unquoted(p.skip(6)) {
            Ok(v) => Ok(SigFields { key_id: Some(v), ..acc }),
            Err(e) => Err(e),
        }
    } else if is_prefix("algorithm="@, p) {
        match unquoted(p.skip(10)) {
            Ok(v) => Ok(SigFields { algorithm: Some(v), ..acc }),
            Err(e) => Err(e),
        }
    } else if is_prefix("headers="@, p) {
        match unquoted(p.skip(8)) {
            Ok(v) => Ok(SigFields { headers: Some(split_on(v, ' ')), ..acc }),
            Err(e) => Err(e),
        }
    } else if is_prefix("signature="@, p) {
        match unquoted(p.skip(10)) {
            Ok(v) => Ok(SigFields { signature: Some(v), ..acc }),
            Err(e) => Err(e),
        }
    } else {
        Ok(acc)
    }
}

/// The fields read from the parameters `ps`, in order; the first failure
/// stops the reading.
pub open spec fn read_params(ps: Seq<Seq<char>>) -> Result<SigFields, Seq<char>>
    decreases ps.len(),
{
    if ps.len() == 0 {
        Ok(no_fields())
    } else {
        match read_params(ps.drop_last()) {
            Err(e) => Err(e),
            Ok(acc) => apply_param(acc, ps.last()),
        }
    }
}

/// Once reading the parameters has failed, reading more of them fails the
/// same way.
proof fn lemma_read_params_err(ps: Seq<Seq<char>>, k: int, e: Seq<char>)
    requires
        0 <= k <= ps.len(),
        read_params(ps.take(k)) == Err::<SigFields, Seq<char>>(e),
    ensures
        read_params(ps) == Err::<SigFields, Seq<char>>(e),
    decreases ps.len() - k,
{
    if k < ps.len() {
        assert(ps.take(k + 1).drop_last() =~= ps.take(k));
        lemma_read_params_err(ps, k + 1, e);
    } else {
        assert(ps.take(k) =~= ps);
    }
}

/// Whether some parameter of `ps`, trimmed, starts with `name`.
pub open spec fn has_param(ps: Seq<Seq<char>>, name: Seq<char>) -> bool {
    exists|i: int| 0 <= i < ps.len() && is_prefix(name, trim(#[trigger] ps[i]))
}

/// A field is set only by a parameter of its own name.
proof fn lemma_read_params_sources(ps: Seq<Seq<char>>)
    ensures
        read_params(ps) matches Ok(f) ==> {
            &&& f.key_id is Some ==> has_param(ps, "keyId="@)
            &&& f.algorithm is Some ==> has_param(ps, "algorithm="@)
            &&& f.headers is Some ==> has_param(ps, "headers="@)
            &&& f.signature is Some ==> has_param(ps, "signature="@)
        },
    decreases ps.len(),
{
    if ps.len() > 0 {
        let d = ps.drop_last();
        lemma_read_params_sources(d);
        let last = ps.len() - 1;
        assert(ps[last] == ps.last());
        assert forall|name: Seq<char>| has_param(d, name) implies has_param(ps, name) by {
            let i = choose|i: int| 0 <= i < d.len() && is_prefix(name, trim(#[trigger] d[i]));
            assert(ps[i] == d[i]);
        }
    }
}

/// What the `Signature` header parser does with missing parameters: a
/// header without a `keyId=` or without a `signature=` parameter is
/// refused, and one without `algorithm=` or `headers=` is read with the
/// algorithm `ed25519` or the signed headers `date`.
pub proof fn lemma_signature_header_defaults(s: Seq<char>)
    ensures
        !has_param(signature_params(s), "keyId="@) ==> parsed_signature(s) is Err,
        !has_param(signature_params(s), "signature="@) ==> parsed_signature(s) is Err,
        !has_param(signature_params(s), "algorithm="@) ==> (parsed_signature(s) matches Ok(v)
            ==> v.1 == "ed25519"@),
        !has_param(signature_params(s), "headers="@) ==> (parsed_signature(s) matches Ok(v)
            ==> v.2 == seq!["date"@]),
{
    lemma_read_params_sources(signature_params(s));
}

/// The view of parsed signature fields: key id, algorithm, headers,
/// signature.
pub open spec fn parsed_view(p: ParsedSignature) -> (Seq<char>, Seq<char>, Seq<Seq<char>>, Seq<char>) {
    (p.key_id@, p.algorithm@, p.headers@.map_values(|x: String| x@), p.signature@)
}

/// What parsing the `Signature` header value `s` gives: the key id, the
/// algorithm (default `ed25519`), the signed headers (default `date`) and the
/// signature, or the reason it fails.
pub open spec fn parsed_signature(s: Seq<char>) -> Result<
    (Seq<char>, Seq<char>, Seq<Seq<char>>, Seq<char>),
    Seq<char>,
> {
    match read_params(signature_params(s)) {
        Err(e) => Err(e),
        Ok(f) => match (f.key_id, f.signature) {
            (None, _) => Err("missing keyId"@),
            (Some(_), None) => Err("missing signature"@),
            (Some(k), Some(sig)) => Ok(
                (
                    k,
                    match f.algorithm {
                        Some(a) => a,
                        None => "ed25519"@,
                    },
                    match f.headers {
                        Some(h) => h,
                        None => seq!["date"@],
                    },
                    sig,
                ),
            ),
        },
    }
}

/// Reading the `keyId` parameter of an outbound header.
proof fn lemma_apply_key_id(acc: SigFields, did: Seq<char>)
    ensures
        apply_param(acc, "keyId="@ + seq!['"'] + did + seq!['"']) == Ok::<SigFields, Seq<char>>(
            SigFields { key_id: Some(did), ..acc },
        ),
{
    reveal_strlit("keyId=");
    let p = "keyId="@ + seq!['"'] + did + seq!['"'];
    assert(p[0] == 'k');
    lemma_trim_id(p);
    lemma_param_value("keyId="@, did);
    lemma_unquote_plain(did);
}

/// Reading the `algorithm` parameter of an outbound header.
proof fn lemma_apply_algorithm(acc: SigFields)
    ensures
        apply_param(acc, "algorithm="@ + seq!['"'] + "ed25519"@ + seq!['"']) == Ok::<
            SigFields,
            Seq<char>,
        >(SigFields { algorithm: Some("ed25519"@), ..acc }),
{
    reveal_strlit("keyId=");
    reveal_strlit("algorithm=");
    let p = "algorithm="@ + seq!['"'] + "ed25519"@ + seq!['"'];
    assert(p[0] == 'a');
    lemma_trim_id(p);
    assert(!is_prefix("keyId="@, p)) by {
        assert(p.take(6)[0] != "keyId="@[0]);
    }
    lemma_param_value("algorithm="@, "ed25519"@);
    lemma_unquote_plain("ed25519"@);
}

/// Reading the `headers` parameter of an outbound header.
proof fn lemma_apply_headers(acc: SigFields)
    ensures
        apply_param(acc, "headers="@ + seq!['"'] + "(request-target) host date"@ + seq!['"'])
            == Ok::<SigFields, Seq<char>>(
            SigFields { headers: Some(seq!["(request-target)"@, "host"@, "date"@]), ..acc },
        ),
{
    reveal_strlit("keyId=");
    reveal_strlit("algorithm=");
    reveal_strlit("headers=");
    let p = "headers="@ + seq!['"'] + "(request-target) host date"@ + seq!['"'];
    assert(p[0] == 'h');
    lemma_trim_id(p);
    assert(!is_prefix("keyId="@, p)) by {
        assert(p.take(6)[0] != "keyId="@[0]);
    }
    assert(!is_prefix("algorithm="@, p)) by {
        assert(p.take(10)[0] != "algorithm="@[0]);
    }
    lemma_param_value("headers="@, "(request-target) host date"@);
    lemma_unquote_plain("(request-target) host date"@);
    lemma_outbound_header_names();
}

/// Reading the `signature` parameter of an outbound header.
proof fn lemma_apply_signature(acc: SigFields, z: Seq<char>)
    ensures
        apply_param(acc, "signature="@ + seq!['"'] + z + seq!['"']) == Ok::<SigFields, Seq<char>>(
            SigFields { signature: Some(z), ..acc },
        ),
{
    reveal_strlit("keyId=");
    reveal_strlit("algorithm=");
    reveal_strlit("headers=");
    reveal_strlit("signature=");
    let p = "signature="@ + seq!['"'] + z + seq!['"'];
    assert(p[0] == 's');
    lemma_trim_id(p);
    assert(!is_prefix("keyId="@, p)) by {
        assert(p.take(6)[0] != "keyId="@[0]);
    }
    assert(!is_prefix("algorithm="@, p)) by {
        assert(p.take(10)[0] != "algorithm="@[0]);
    }
    assert(!is_prefix("headers="@, p)) by {
        assert(p.take(8)[0] != "headers="@[0]);
    }
    lemma_param_value("signature="@, z);
    lemma_unquote_plain(z);
}

/// An outbound `Signature` header parses back to its key id, the
/// `ed25519` algorithm, the three signed headers and its signature text,
/// for any key id without a double quote (commas inside the quoted key id
/// stay in it).
pub proof fn lemma_outbound_header_parses(did: Seq<char>, sig_text: Seq<char>)
    requires
        lacks_char(did, '"'),
        plain_text(sig_text),
    ensures
        parsed_signature(outbound_header_text(did, sig_text)) == Ok::<
            (Seq<char>, Seq<char>, Seq<Seq<char>>, Seq<char>),
            Seq<char>,
        >((did, "ed25519"@, seq!["(request-target)"@, "host"@, "date"@], seq!['z'] + sig_text)),
{
    lemma_outbound_params(did, sig_text);
    let q = seq!['"'];
    let z = seq!['z'] + sig_text;
    let p1 = "keyId="@ + q + did + q;
    let p2 = "algorithm="@ + q + "ed25519"@ + q;
    let p3 = "headers="@ + q + "(request-target) host date"@ + q;
    let p4 = "signature="@ + q + z + q;
    let ps = seq![p1, p2, p3, p4];
    assert(ps.drop_last() =~= seq![p1, p2, p3]);
    assert(seq![p1, p2, p3].drop_last() =~= seq![p1, p2]);
    assert(seq![p1, p2].drop_last() =~= seq![p1]);
    assert(seq![p1].drop_last() =~= Seq::<Seq<char>>::empty());
    assert(read_params(Seq::<Seq<char>>::empty()) == Ok::<SigFields, Seq<char>>(no_fields()));
    let f1 = SigFields { key_id: Some(did), ..no_fields() };
    lemma_apply_key_id(no_fields(), did);
    assert(read_params(seq![p1]) == Ok::<SigFields, Seq<char>>(f1));
    let f2 = SigFields { algorithm: Some("ed25519"@), ..f1 };
    lemma_apply_algorithm(f1);
    assert(read_params(seq![p1, p2]) == Ok::<SigFields, Seq<char>>(f2));
    let f3 = SigFields { headers: Some(seq!["(request-target)"@, "host"@, "date"@]), ..f2 };
    lemma_apply_headers(f2);
    assert(read_params(seq![p1, p2, p3]) == Ok::<SigFields, Seq<char>>(f3));
    let f4 = SigFields { signature: Some(z), ..f3 };
    lemma_apply_signature(f3, z);
    assert(read_params(ps) == Ok::<SigFields, Seq<char>>(f4));
}

/// The parameter value after `prefix`, unquoted, when `p` starts with it.
fn param_value(p: &str, prefix: &str) -> (r: Option<Result<String, String>>)
    ensures
        match r {
            None => !is_prefix(prefix@, p@),
            Some(x) => is_prefix(prefix@, p@) && match (x, unquoted(p@.skip(prefix@.len() as int))) {
                (Ok(a), Ok(b)) => a@ == b,
                (Err(a), Err(b)) => a@ == b,
                _ => false,
            },
        },
{
    match strip_prefix_str(p, prefix) {
        Some(rest) => Some(unquote(rest.as_str())),
        None => None,
    }
}

/// Parses `keyId="…",algorithm="…",headers="…",signature="z…"`.
pub fn parse_signature_header(header: &str) -> (r: Result<ParsedSignature, String>)
    ensures
        match (r, parsed_signature(header@)) {
            (Ok(p), Ok(v)) => parsed_view(p) == v,
            (Err(a), Err(b)) => a@ == b,
            _ => false,
        },
{
    proof {
        reveal_strlit("keyId=");
        reveal_strlit("algorithm=");
        reveal_strlit("headers=");
        reveal_strlit("signature=");
    }
    let parts = split_signature_params(header);
    let ghost ps = parts@.map_values(|x: String| x@);
    let mut key_id: Option<String> = None;
    let mut algorithm: Option<String> = None;
    let mut headers: Option<Vec<String>> = None;
    let mut signature: Option<String> = None;
    let mut i: usize = 0;
    while i < parts.len()
        invariant
            i <= parts@.len(),
            ps == parts@.map_values(|x: String| x@),
            ps == signature_params(header@),
            read_params(ps.take(i as int)) == Ok::<SigFields, Seq<char>>(
                SigFields {
                    key_id: match key_id {
                        Some(k) => Some(k@),
                        None => None,
                    },
                    algorithm: match algorithm {
                        Some(a) => Some(a@),
                        None => None,
                    },
                    headers: match headers {
                        Some(h) => Some(h@.map_values(|x: String| x@)),
                        None => None,
                    },
                    signature: match signature {
                        Some(s) => Some(s@),
                        None => None,
                    },
                },
            ),
        decreases parts@.len() - i,
    {
        proof {
            reveal_strlit("keyId=");
            reveal_strlit("algorithm=");
            reveal_strlit("headers=");
            reveal_strlit("signature=");
            assert(ps.take(i as int + 1).drop_last() =~= ps.take(i as int));
            assert(ps.take(i as int + 1).last() == ps[i as int]);
            assert(ps[i as int] == parts@[i as int]@);
        }
        let pv = chars_of(parts[i].as_str());
        let p = trimmed_range(&pv, 0, pv.len());
        proof {
            assert(pv@.subrange(0, pv@.len() as int) =~= parts@[i as int]@);
        }
        match param_value(p.as_str(), "keyId=") {
            Some(Ok(v)) => {
                key_id = Some(v);
            },
            Some(Err(e)) => {
                proof {
                    lemma_read_params_err(ps, i as int + 1, e@);
                }
                return Err(e);
            },
            None => match param_value(p.as_str(), "algorithm=") {
                Some(Ok(v)) => {
                    algorithm = Some(v);
                },
                Some(Err(e)) => {
                    proof {
                        lemma_read_params_err(ps, i as int + 1, e@);
                    }
                    return Err(e);
                },
                None => match param_value(p.as_str(), "headers=") {
                    Some(Ok(v)) => {
                        headers = Some(split_char(v.as_str(), ' '));
                    },
                    Some(Err(e)) => {
                        proof {
                            lemma_read_params_err(ps, i as int + 1, e@);
                        }
                        return Err(e);
                    },
                    None => match param_value(p.as_str(), "signature=") {
                        Some(Ok(v)) => {
                            signature = Some(v);
                        },
                        Some(Err(e)) => {
                            proof {
                                lemma_read_params_err(ps, i as int + 1, e@);
                            }
                            return Err(e);
                        },
                        None => {},
                    },
                },
            },
        }
        i = i + 1;
    }
    proof {
        assert(ps.take(ps.len() as int) =~= ps);
        reveal_strlit("ed25519");
        reveal_strlit("date");
    }
    let key_id = match key_id {
        Some(k) => k,
        None => {
            return Err(to_owned_string("missing keyId"));
        },
    };
    let algorithm = match algorithm {
        Some(a) => a,
        None => to_owned_string("ed25519"),
    };
    let headers = match headers {
        Some(h) => h,
        None => {
            let mut h: Vec<String> = Vec::new();
            h.push(to_owned_string("date"));
            proof {
                assert(h@.map_values(|x: String| x@) =~= seq!["date"@]);
            }
            h
        },
    };
    let signature = match signature {
        Some(s) => s,
        None => {
            return Err(to_owned_string("missing signature"));
        },
    };
    Ok(ParsedSignature { key_id, algorithm, headers, signature })
}

// ---------------------------------------------------------------------------
// The signing string
// ---------------------------------------------------------------------------

/// The line of the signing string for the header `name`, or why there is
/// none.
pub open spec fn signing_line(head: HeadView, name: Seq<char>) -> Result<Seq<char>, Seq<char>> {
    if name == "(request-target)"@ {
        Ok(
            "(request-target): "@ + ascii_lower(head.method) + seq![' '] + match head.path_and_query {
                Some(p) => p,
                None => "/"@,
            },
        )
    } else {
        match header_value(head.headers, ascii_lower(name)) {
            None => Err("missing header: "@ + name),
            Some(v) => Ok(name + ": "@ + v),
        }
    }
}

/// The lines for the headers `names`, in order, or the first failure.
pub open spec fn signing_lines(head: HeadView, names: Seq<Seq<char>>) -> Result<
    Seq<Seq<char>>,
    Seq<char>,
>
    decreases names.len(),
{
    if names.len() == 0 {
        Ok(Seq::empty())
    } else {
        match signing_lines(head, names.drop_last()) {
            Err(e) => Err(e),
            Ok(ls) => match signing_line(head, names.last()) {
                Err(e) => Err(e),
                Ok(l) => Ok(ls.push(l)),
            },
        }
    }
}

/// The lines joined by newlines.
pub open spec fn join_lines(ls: Seq<Seq<char>>) -> Seq<char>
    decreases ls.len(),
{
    if ls.len() == 0 {
        Seq::empty()
    } else if ls.len() == 1 {
        ls[0]
    } else {
        join_lines(ls.drop_last()) + seq!['\n'] + ls.last()
    }
}

/// The signing string of `head` for the headers `names`, or why it cannot
/// be built.
pub open spec fn signing_string(head: HeadView, names: Seq<Seq<char>>) -> Result<Seq<char>, Seq<char>> {
    match signing_lines(head, names) {
        Ok(ls) => Ok(join_lines(ls)),
        Err(e) => Err(e),
    }
}

/// Builds the signing string of `head` for the headers `headers`.
pub fn build_signing_string(head: &RequestHead, headers: &Vec<String>, _algorithm: &str) -> (r:
    Result<String, String>)
    ensures
        match (r, signing_string(head@, headers@.map_values(|x: String| x@))) {
            (Ok(a), Ok(b)) => a@ == b,
            (Err(a), Err(b)) => a@ == b,
            _ => false,
        },
{
    let ghost names = headers@.map_values(|x: String| x@);
    let mut out = String::new();
    let mut i: usize = 0;
    while i < headers.len()
        invariant
            i <= headers@.len(),
            names == headers@.map_values(|x: String| x@),
            signing_lines(head@, names.take(i as int)) matches Ok(ls) && out@ == join_lines(ls)
                && ls.len() == i,
        decreases headers@.len() - i,
    {
        proof {
            reveal_strlit("(request-target)");
            reveal_strlit("(request-target): ");
            reveal_strlit("/");
            reveal_strlit(": ");
            reveal_strlit("missing header: ");
            assert(names.take(i as int + 1).drop_last() =~= names.take(i as int));
            assert(names.take(i as int + 1).last() == headers@[i as int]@);
        }
        let ghost prev = out@;
        let ghost ls = signing_lines(head@, names.take(i as int))->Ok_0;
        let name = &headers[i];
        let line = if str_eq(name.as_str(), "(request-target)") {
            let mut l = to_owned_string("(request-target): ");
            let m = to_ascii_lower(head.method.as_str());
            push_str(&mut l, m.as_str());
            push_char(&mut l, ' ');
            match &head.path_and_query {
                Some(p) => push_str(&mut l, p.as_str()),
                None => push_str(&mut l, "/"),
            }
            proof {
                assert(l@ =~= "(request-target): "@ + ascii_lower(head@.method) + seq![' '] + match head@.path_and_query {
                    Some(p) => p,
                    None => "/"@,
                });
            }
            l
        } else {
            match get_header(head, name.as_str()) {
                None => {
                    let mut m = to_owned_string("missing header: ");
                    push_str(&mut m, name.as_str());
                    proof {
                        lemma_signing_lines_err(head@, names, i as int + 1, m@);
                    }
                    return Err(m);
                },
                Some(v) => {
                    let mut l = copy_string(name);
                    push_str(&mut l, ": ");
                    push_str(&mut l, v.as_str());
                    l
                },
            }
        };
        if i > 0 {
            push_char(&mut out, '\n');
        }
        push_str(&mut out, line.as_str());
        proof {
            assert(signing_lines(head@, names.take(i as int + 1)) == Ok::<Seq<Seq<char>>, Seq<char>>(
                ls.push(line@),
            ));
            if i > 0 {
                assert(ls.push(line@).drop_last() =~= ls);
                assert(out@ =~= join_lines(ls) + seq!['\n'] + line@);
            } else {
                assert(out@ =~= line@);
            }
        }
        i = i + 1;
    }
    proof {
        assert(names.take(names.len() as int) =~= names);
    }
    Ok(out)
}

/// Once building the lines has failed, building more of them fails the same
/// way.
proof fn lemma_signing_lines_err(head: HeadView, names: Seq<Seq<char>>, k: int, e: Seq<char>)
    requires
        0 <= k <= names.len(),
        signing_lines(head, names.take(k)) == Err::<Seq<Seq<char>>, Seq<char>>(e),
    ensures
        signing_lines(head, names) == Err::<Seq<Seq<char>>, Seq<char>>(e),
    decreases names.len() - k,
{
    if k < names.len() {
        assert(names.take(k + 1).drop_last() =~= names.take(k));
        lemma_signing_lines_err(head, names, k + 1, e);
    } else {
        assert(names.take(k) =~= names);
    }
}

// ---------------------------------------------------------------------------
// The Date header
// ---------------------------------------------------------------------------

/// The instant a `Date` header value names, as whole seconds since the Unix
/// epoch and nanoseconds: an HTTP date, else an RFC 3339 date-time.
pub open spec fn date_instant(s: Seq<char>) -> Option<(int, int)> {
    match spec_http_date_seconds(s) {
        Some(secs) => Some((secs as int, 0)),
        None => match spec_rfc3339_instant(s) {
            Some(t) => Some((t.0 as int, t.1 as int)),
            None => None,
        },
    }
}

/// The whole seconds between the instants `now` and `t`, ignoring the
/// sign.
pub open spec fn skew_seconds(now: (int, int), t: (int, int)) -> nat {
    let d = (now.0 - t.0) * 1_000_000_000 + (now.1 - t.1);
    if d >= 0 {
        (d / 1_000_000_000) as nat
    } else {
        ((-d) / 1_000_000_000) as nat
    }
}

/// What checking the `Date` header value `s` at the instant `now` gives.
pub open spec fn date_check(s: Seq<char>, now: (int, int)) -> Result<(), Seq<char>> {
    match date_instant(s) {
        None => Err("unparseable date: "@ + spec_str_debug(s)),
        Some(t) => if skew_seconds(now, t) > 300 {
            Err("Date is "@ + decimal(skew_seconds(now, t)) + "s from server clock (max 300s allowed)"@)
        } else {
            Ok(())
        },
    }
}

/// Checks that the `Date` header value `date_str` is within 300 seconds of
/// the instant `now` (seconds and nanoseconds since the Unix epoch).
pub fn validate_date_at(date_str: &str, now: (i64, u32)) -> (r: Result<(), String>)
    requires
        now.1 < 1_000_000_000,
    ensures
        match (r, date_check(date_str@, (now.0 as int, now.1 as int))) {
            (Ok(()), Ok(())) => true,
            (Err(a), Err(b)) => a@ == b,
            _ => false,
        },
{
    let (secs, nanos): (i64, u32) = match http_date_seconds(date_str) {
        Some(t) => (t as i64, 0u32),
        None => match rfc3339_instant(date_str) {
            Some(t) => t,
            None => {
                let mut m = to_owned_string("unparseable date: ");
                let d = str_debug(date_str);
                push_str(&mut m, d.as_str());
                return Err(m);
            },
        },
    };
    let d: i128 = (now.0 as i128 - secs as i128) * 1_000_000_000i128 + (now.1 as i128 - nanos as i128);
    let skew: i128 = if d >= 0 {
        d / 1_000_000_000i128
    } else {
        (-d) / 1_000_000_000i128
    };
    if skew > 300 {
        let mut m = to_owned_string("Date is ");
        push_decimal_u128(&mut m, skew as u128);
        push_str(&mut m, "s from server clock (max 300s allowed)");
        return Err(m);
    }
    Ok(())
}

/// Checks that the `Date` header value is within 300 seconds of the clock.
pub fn validate_date(date_str: &str) -> (r: Result<(), String>)
    ensures
        exists|now: (i64, u32)|
            now.1 < 1_000_000_000 && #[trigger] date_check(date_str@, (now.0 as int, now.1 as int))
                == match r {
                Ok(()) => Ok::<(), Seq<char>>(()),
                Err(e) => Err(e@),
            },
{
    let now = now_utc();
    let r = validate_date_at(date_str, now);
    proof {
        assert(date_check(date_str@, (now.0 as int, now.1 as int)) == match r {
            Ok(()) => Ok::<(), Seq<char>>(()),
            Err(e) => Err(e@),
        });
    }
    r
}

// ---------------------------------------------------------------------------
// Keys and signatures
// ---------------------------------------------------------------------------

/// What decoding a multibase public key gives: the key bytes or the
/// message of the failure.
pub open spec fn public_key_decoding(mb: Seq<char>) -> Result<Seq<u8>, Seq<char>> {
    match key_decoding(mb) {
        KeyDecoding::Key(k) => Ok(k),
        KeyDecoding::MissingZ => Err("public key multibase must start with 'z'"@),
        KeyDecoding::Base58(e) => Err("bs58 decode failed: "@ + e),
        KeyDecoding::MissingPrefix => Err("missing ed25519 multicodec prefix [0xed, 0x01]"@),
        KeyDecoding::WrongLength => Err("key must be 32 bytes"@),
        KeyDecoding::InvalidKey(e) => Err("invalid Ed25519 key: "@ + e),
    }
}

/// Decodes a `z`-prefixed base58btc multibase Ed25519 public key.
pub fn decode_multibase_key(multibase: &str) -> (r: Result<[u8; 32], String>)
    ensures
        match (r, public_key_decoding(multibase@)) {
            (Ok(a), Ok(b)) => a@ == b,
            (Err(a), Err(b)) => a@ == b,
            _ => false,
        },
        forall|pk: Seq<u8>|
            multibase@ == #[trigger] crate::identity::multibase_key(pk) && pk.len() == 32
                && crate::external::spec_ed25519_key_check(pk) is Ok ==> (r matches Ok(k) && k@ == pk),
{
    match decode_ed25519_multibase(multibase) {
        Ok(k) => Ok(k),
        Err(KeyDecodeError::MissingZ) => Err(to_owned_string("public key multibase must start with 'z'")),
        Err(KeyDecodeError::Base58(e)) => {
            let mut m = to_owned_string("bs58 decode failed: ");
            push_str(&mut m, e.as_str());
            Err(m)
        },
        Err(KeyDecodeError::MissingPrefix) => Err(
            to_owned_string("missing ed25519 multicodec prefix [0xed, 0x01]"),
        ),
        Err(KeyDecodeError::WrongLength) => Err(to_owned_string("key must be 32 bytes")),
        Err(KeyDecodeError::InvalidKey(e)) => {
            let mut m = to_owned_string("invalid Ed25519 key: ");
            push_str(&mut m, e.as_str());
            Err(m)
        },
    }
}

/// What decoding the signature text of a `Signature` header gives.
pub open spec fn header_signature_decoding(v: Seq<char>) -> Result<Seq<u8>, Seq<char>> {
    match sig_decoding(v) {
        SigDecoding::Sig(b) => Ok(b),
        SigDecoding::MissingZ => Err("signature value must start with 'z'"@),
        SigDecoding::Base58(e) => Err("bs58 decode failed: "@ + e),
        SigDecoding::WrongLength => Err("signature must be 64 bytes"@),
    }
}

/// Decodes the signature text of a `Signature` header.
fn decode_header_signature(v: &str) -> (r: Result<[u8; 64], String>)
    ensures
        match (r, header_signature_decoding(v@)) {
            (Ok(a), Ok(b)) => a@ == b,
            (Err(a), Err(b)) => a@ == b,
            _ => false,
        },
        forall|sig: Seq<u8>|
            v@ == #[trigger] crate::signing::proof_value(sig) && sig.len() == 64 ==> (r matches Ok(s)
                && s@ == sig),
{
    match decode_signature(v) {
        Ok(s) => Ok(s),
        Err(SigDecodeError::MissingZ) => Err(to_owned_string("signature value must start with 'z'")),
        Err(SigDecodeError::Base58(e)) => {
            let mut m = to_owned_string("bs58 decode failed: ");
            push_str(&mut m, e.as_str());
            Err(m)
        },
        Err(SigDecodeError::WrongLength) => Err(to_owned_string("signature must be 64 bytes")),
    }
}

/// The outcome of checking a request signed by a node, at the instant
/// `now`: the node's DID, or why the request is refused.
pub open spec fn node_auth_outcome(head: HeadView, now: (int, int)) -> Result<Seq<char>, Seq<char>> {
    match header_value(head.headers, "signature"@) {
        None => Err("missing Signature header"@),
        Some(sh) => match parsed_signature(sh) {
            Err(e) => Err("invalid Signature header: "@ + e),
            Ok((key_id, algorithm, names, sig_text)) => if !is_prefix("did:key:"@, key_id) {
                Err("keyId must be a did:key DID, got: "@ + key_id)
            } else {
                match header_value(head.headers, "date"@) {
                    None => Err("missing Date header"@),
                    Some(date) => match date_check(date, now) {
                        Err(e) => Err("Date header invalid: "@ + e),
                        Ok(()) => match public_key_decoding(key_id.skip(8)) {
                            Err(e) => Err("invalid did:key public key: "@ + e),
                            Ok(pk) => match signing_string(head, names) {
                                Err(e) => Err("signing string error: "@ + e),
                                Ok(text) => match header_signature_decoding(sig_text) {
                                    Err(e) => Err(e),
                                    Ok(sig) => if spec_ed25519_verifies(
                                        pk,
                                        vstd::utf8::encode_utf8(text),
                                        sig,
                                    ) {
                                        Ok(key_id)
                                    } else {
                                        Err("node signature verification failed"@)
                                    },
                                },
                            },
                        },
                    },
                }
            },
        },
    }
}

/// The view of a result of text or error text.
pub open spec fn text_result(r: Result<String, String>) -> Result<Seq<char>, Seq<char>> {
    match r {
        Ok(a) => Ok(a@),
        Err(e) => Err(e@),
    }
}

/// The signing string of the three headers an outbound request signs is
/// the text the sender signed.
proof fn lemma_outbound_signing_string(head: HeadView, path: Seq<char>, host: Seq<char>, date: Seq<
    char,
>)
    requires
        head.path_and_query == Some(path),
        header_value(head.headers, "host"@) == Some(host),
        header_value(head.headers, "date"@) == Some(date),
    ensures
        signing_string(head, seq!["(request-target)"@, "host"@, "date"@]) == Ok::<
            Seq<char>,
            Seq<char>,
        >(outbound_signing_string(ascii_lower(head.method), path, host, date)),
{
    reveal_strlit("(request-target)");
    reveal_strlit("host");
    reveal_strlit("date");
    reveal_strlit("(request-target): ");
    reveal_strlit("\nhost: ");
    reveal_strlit("\ndate: ");
    reveal_strlit(": ");
    assert(ascii_lower("host"@) =~= "host"@);
    assert(ascii_lower("date"@) =~= "date"@);
    let rt = "(request-target)"@;
    let names = seq![rt, "host"@, "date"@];
    assert("host"@ != rt);
    assert("date"@ != rt);
    let l1 = "(request-target): "@ + ascii_lower(head.method) + seq![' '] + path;
    let l2 = "host"@ + ": "@ + host;
    let l3 = "date"@ + ": "@ + date;
    assert(names.drop_last() =~= seq![rt, "host"@]);
    assert(seq![rt, "host"@].drop_last() =~= seq![rt]);
    assert(seq![rt].drop_last() =~= Seq::<Seq<char>>::empty());
    assert(signing_lines(head, Seq::<Seq<char>>::empty()) == Ok::<Seq<Seq<char>>, Seq<char>>(
        Seq::empty(),
    ));
    assert(signing_line(head, rt) == Ok::<Seq<char>, Seq<char>>(l1));
    assert(signing_lines(head, seq![rt]) == Ok::<Seq<Seq<char>>, Seq<char>>(seq![l1])) by {
        assert(Seq::<Seq<char>>::empty().push(l1) =~= seq![l1]);
    }
    assert(signing_line(head, "host"@) == Ok::<Seq<char>, Seq<char>>(l2));
    assert(signing_lines(head, seq![rt, "host"@]) == Ok::<Seq<Seq<char>>, Seq<char>>(
        seq![l1, l2],
    )) by {
        assert(seq![l1].push(l2) =~= seq![l1, l2]);
    }
    assert(signing_line(head, "date"@) == Ok::<Seq<char>, Seq<char>>(l3));
    assert(signing_lines(head, names) == Ok::<Seq<Seq<char>>, Seq<char>>(seq![l1, l2, l3])) by {
        assert(seq![l1, l2].push(l3) =~= seq![l1, l2, l3]);
    }
    let ls = seq![l1, l2, l3];
    assert(ls.drop_last() =~= seq![l1, l2]);
    assert(seq![l1, l2].drop_last() =~= seq![l1]);
    assert(join_lines(seq![l1]) == l1);
    assert(join_lines(seq![l1, l2]) == l1 + seq!['\n'] + l2);
    assert(join_lines(ls) == l1 + seq!['\n'] + l2 + seq!['\n'] + l3);
    assert(l1 + seq!['\n'] + l2 + seq!['\n'] + l3 =~= outbound_signing_string(
        ascii_lower(head.method),
        path,
        host,
        date,
    ));
}

/// Base58 text holds no quote and no comma.
proof fn lemma_base58_plain(t: Seq<char>)
    requires
        forall|i: int| 0 <= i < t.len() ==> crate::external::is_base58_char(#[trigger] t[i]),
    ensures
        plain_text(t),
    decreases t.len(),
{
    if t.len() > 0 {
        assert(crate::external::is_base58_char(t[t.len() - 1]));
        lemma_base58_plain(t.drop_last());
    }
}

/// Whether `head` carries the signature that the node with the secret
/// `seed` puts on an outbound request: its `Signature` header is the one
/// [`outbound_signature_at`] makes under that seed's `did:key` for the
/// lowercase method, the path with query and the `Host` and `Date` headers
/// of `head`. The conditions on the key, the signature and their base58
/// texts hold of every key and signature the Ed25519 and base58 crates
/// produce.
pub open spec fn signed_by_node(head: HeadView, seed: Seq<u8>) -> bool {
    let pk = crate::external::spec_ed25519_public_key(seed);
    let key_text = spec_bs58_encode(crate::identity::ed25519_prefix() + pk);
    match (head.path_and_query, header_value(head.headers, "host"@), header_value(
        head.headers,
        "date"@,
    )) {
        (Some(path), Some(host), Some(date)) => {
            let text = outbound_signing_string(ascii_lower(head.method), path, host, date);
            let sig = spec_ed25519_sign(seed, vstd::utf8::encode_utf8(text));
            &&& seed.len() == 32
            &&& pk.len() == 32
            &&& crate::external::spec_ed25519_key_check(pk) is Ok
            &&& sig.len() == 64
            &&& forall|i: int|
                0 <= i < key_text.len() ==> crate::external::is_base58_char(#[trigger] key_text[i])
            &&& forall|i: int|
                0 <= i < spec_bs58_encode(sig).len() ==> crate::external::is_base58_char(
                    #[trigger] spec_bs58_encode(sig)[i],
                )
            &&& header_value(head.headers, "signature"@) == Some(
                outbound_signature_header(crate::identity::did_key(pk), seed, text),
            )
        },
        _ => false,
    }
}

/// Whether the `Date` header of `head` is within the allowed skew of `now`.
pub open spec fn fresh_at(head: HeadView, now: (int, int)) -> bool {
    header_value(head.headers, "date"@) matches Some(d) && date_check(d, now) is Ok
}

/// What a request signed by a node gives the checks that do not depend on
/// the key and signature crates.
proof fn lemma_signed_by_node_facts(head: HeadView, seed: Seq<u8>)
    ensures
        signed_by_node(head, seed) ==> ({
            let pk = crate::external::spec_ed25519_public_key(seed);
            let did = crate::identity::did_key(pk);
            let path = head.path_and_query->Some_0;
            let host = header_value(head.headers, "host"@)->Some_0;
            let date = header_value(head.headers, "date"@)->Some_0;
            let text = outbound_signing_string(ascii_lower(head.method), path, host, date);
            let sig = spec_ed25519_sign(seed, vstd::utf8::encode_utf8(text));
            &&& parsed_signature(header_value(head.headers, "signature"@)->Some_0) == Ok::<
                (Seq<char>, Seq<char>, Seq<Seq<char>>, Seq<char>),
                Seq<char>,
            >((did, "ed25519"@, seq!["(request-target)"@, "host"@, "date"@], crate::signing::proof_value(sig)))
            &&& is_prefix("did:key:"@, did)
            &&& did.skip(8) == crate::identity::multibase_key(pk)
            &&& signing_string(head, seq!["(request-target)"@, "host"@, "date"@]) == Ok::<
                Seq<char>,
                Seq<char>,
            >(text)
        }),
{
    if signed_by_node(head, seed) {
        reveal_strlit("did:key:");
        let pk = crate::external::spec_ed25519_public_key(seed);
        let did = crate::identity::did_key(pk);
        let path = head.path_and_query->Some_0;
        let host = header_value(head.headers, "host"@)->Some_0;
        let date = header_value(head.headers, "date"@)->Some_0;
        let text = outbound_signing_string(ascii_lower(head.method), path, host, date);
        let sig = spec_ed25519_sign(seed, vstd::utf8::encode_utf8(text));
        let key_text = spec_bs58_encode(crate::identity::ed25519_prefix() + pk);
        lemma_base58_plain(key_text);
        lemma_base58_plain(spec_bs58_encode(sig));
        assert(plain_text("did:key:"@ + seq!['z'])) by {
            reveal_with_fuel(plain_text, 12);
        }
        lemma_plain_concat("did:key:"@ + seq!['z'], key_text);
        assert(did =~= "did:key:"@ + seq!['z'] + key_text);
        lemma_plain_lacks_quote(did);
        lemma_outbound_header_parses(did, spec_bs58_encode(sig));
        assert(outbound_signature_header(did, seed, text) == outbound_header_text(
            did,
            spec_bs58_encode(sig),
        ));
        assert(did.take(8) =~= "did:key:"@);
        assert(did.skip(8) =~= crate::identity::multibase_key(pk));
        lemma_outbound_signing_string(head, path, host, date);
    }
}

/// Checks a request signed by a node, whose key is the one in the
/// `did:key` of the signature's `keyId`, at the instant `now`.
pub fn verify_node_signature_at(head: &RequestHead, now: (i64, u32)) -> (r: Result<String, String>)
    requires
        now.1 < 1_000_000_000,
    ensures
        text_result(r) == node_auth_outcome(head@, (now.0 as int, now.1 as int)),
        (exists|seed: Seq<u8>| signed_by_node(head@, seed)) && fresh_at(
            head@,
            (now.0 as int, now.1 as int),
        ) ==> (r matches Ok(did) && exists|seed: Seq<u8>|
            signed_by_node(head@, seed) && did@ == crate::identity::did_key(
                crate::external::spec_ed25519_public_key(seed),
            )),
{
    proof {
        reveal_strlit("signature");
        reveal_strlit("date");
        reveal_strlit("did:key:");
        assert(ascii_lower("signature"@) =~= "signature"@);
        assert(ascii_lower("date"@) =~= "date"@);
    }
    let ghost seed = choose|seed: Seq<u8>| signed_by_node(head@, seed);
    proof {
        lemma_signed_by_node_facts(head@, seed);
    }
    let sig_header = match get_header(head, "signature") {
        Some(v) => v,
        None => {
            return Err(to_owned_string("missing Signature header"));
        },
    };
    let parsed = match parse_signature_header(sig_header.as_str()) {
        Ok(p) => p,
        Err(e) => {
            let mut m = to_owned_string("invalid Signature header: ");
            push_str(&mut m, e.as_str());
            return Err(m);
        },
    };
    let multibase = match strip_prefix_str(parsed.key_id.as_str(), "did:key:") {
        Some(m) => m,
        None => {
            let mut m = to_owned_string("keyId must be a did:key DID, got: ");
            push_str(&mut m, parsed.key_id.as_str());
            return Err(m);
        },
    };
    let date = match get_header(head, "date") {
        Some(v) => v,
        None => {
            return Err(to_owned_string("missing Date header"));
        },
    };
    match validate_date_at(date.as_str(), now) {
        Ok(()) => {},
        Err(e) => {
            let mut m = to_owned_string("Date header invalid: ");
            push_str(&mut m, e.as_str());
            return Err(m);
        },
    }
    let key = match decode_multibase_key(multibase.as_str()) {
        Ok(k) => k,
        Err(e) => {
            let mut m = to_owned_string("invalid did:key public key: ");
            push_str(&mut m, e.as_str());
            return Err(m);
        },
    };
    let text = match build_signing_string(head, &parsed.headers, parsed.algorithm.as_str()) {
        Ok(t) => t,
        Err(e) => {
            let mut m = to_owned_string("signing string error: ");
            push_str(&mut m, e.as_str());
            return Err(m);
        },
    };
    let sig = match decode_header_signature(parsed.signature.as_str()) {
        Ok(s) => s,
        Err(e) => {
            return Err(e);
        },
    };
    let msg = text.as_str().as_bytes();
    proof {
        if signed_by_node(head@, seed) {
            assert(seed.len() == 32 && key@ == crate::external::spec_ed25519_public_key(seed) && sig@
                == spec_ed25519_sign(seed, msg@));
        }
    }
    if ed25519_verify(&key, msg, &sig) {
        Ok(parsed.key_id)
    } else {
        Err(to_owned_string("node signature verification failed"))
    }
}

/// Checks a request signed by a node against the clock.
pub fn verify_node_signature(head: &RequestHead) -> (r: Result<String, String>)
    ensures
        exists|now: (i64, u32)|
            now.1 < 1_000_000_000 && #[trigger] node_auth_outcome(head@, (now.0 as int, now.1 as int))
                == text_result(r),
{
    let now = now_utc();
    let r = verify_node_signature_at(head, now);
    proof {
        assert(node_auth_outcome(head@, (now.0 as int, now.1 as int)) == text_result(r));
    }
    r
}

// ---------------------------------------------------------------------------
// Agent signatures
// ---------------------------------------------------------------------------

/// The first stage of checking a request signed by an agent, at the instant
/// `now`: the parsed signature, or why the request is refused.
pub open spec fn agent_auth_start_outcome(head: HeadView, now: (int, int)) -> Result<
    (Seq<char>, Seq<char>, Seq<Seq<char>>, Seq<char>),
    Seq<char>,
> {
    match header_value(head.headers, "signature"@) {
        None => Err("missing Signature header"@),
        Some(sh) => match parsed_signature(sh) {
            Err(e) => Err("invalid Signature header: "@ + e),
            Ok(p) => match header_value(head.headers, "date"@) {
                None => Err("missing Date header"@),
                Some(date) => match date_check(date, now) {
                    Err(e) => Err("Date header invalid: "@ + e),
                    Ok(()) => Ok(p),
                },
            },
        },
    }
}

/// Parses the signature of a request signed by an agent and checks its
/// `Date`, at the instant `now`. The caller then looks up the agent named by
/// `key_id` and finishes with [`agent_auth_finish`].
pub fn agent_auth_start(head: &RequestHead, now: (i64, u32)) -> (r: Result<ParsedSignature, String>)
    requires
        now.1 < 1_000_000_000,
    ensures
        match (r, agent_auth_start_outcome(head@, (now.0 as int, now.1 as int))) {
            (Ok(a), Ok(b)) => parsed_view(a) == b,
            (Err(a), Err(b)) => a@ == b,
            _ => false,
        },
{
    proof {
        reveal_strlit("signature");
        reveal_strlit("date");
        assert(ascii_lower("signature"@) =~= "signature"@);
        assert(ascii_lower("date"@) =~= "date"@);
    }
    let sig_header = match get_header(head, "signature") {
        Some(v) => v,
        None => {
            return Err(to_owned_string("missing Signature header"));
        },
    };
    let parsed = match parse_signature_header(sig_header.as_str()) {
        Ok(p) => p,
        Err(e) => {
            let mut m = to_owned_string("invalid Signature header: ");
            push_str(&mut m, e.as_str());
            return Err(m);
        },
    };
    let date = match get_header(head, "date") {
        Some(v) => v,
        None => {
            return Err(to_owned_string("missing Date header"));
        },
    };
    match validate_date_at(date.as_str(), now) {
        Ok(()) => {},
        Err(e) => {
            let mut m = to_owned_string("Date header invalid: ");
            push_str(&mut m, e.as_str());
            return Err(m);
        },
    }
    Ok(parsed)
}

/// The view of an agent lookup.
pub open spec fn lookup_view(l: Result<Option<AgentProfile>, StorageError>) -> Result<
    Option<Option<Seq<char>>>,
    Seq<char>,
> {
    match l {
        Err(e) => Err(storage_error_text(e)),
        Ok(None) => Ok(None),
        Ok(Some(p)) => Ok(
            Some(
                match p.public_key {
                    Some(k) => Some(k@),
                    None => None,
                },
            ),
        ),
    }
}

/// The second stage of checking a request signed by an agent: given the
/// parsed signature and what looking up its `keyId` gave (a storage error,
/// no agent, or the agent's public key if it has one), the agent's DID or
/// why the request is refused.
pub open spec fn agent_auth_finish_outcome(
    head: HeadView,
    parsed: (Seq<char>, Seq<char>, Seq<Seq<char>>, Seq<char>),
    lookup: Result<Option<Option<Seq<char>>>, Seq<char>>,
) -> Result<Seq<char>, Seq<char>> {
    let (key_id, _algorithm, names, sig_text) = parsed;
    match lookup {
        Err(e) => Err("storage error: "@ + e),
        Ok(None) => Err("agent "@ + key_id + " not registered"@),
        Ok(Some(None)) => Err("agent "@ + key_id + " has no public key"@),
        Ok(Some(Some(mb))) => match public_key_decoding(mb) {
            Err(e) => Err("invalid public key for "@ + key_id + ": "@ + e),
            Ok(pk) => match signing_string(head, names) {
                Err(e) => Err("signing string error: "@ + e),
                Ok(text) => match header_signature_decoding(sig_text) {
                    Err(e) => Err(e),
                    Ok(sig) => if spec_ed25519_verifies(pk, vstd::utf8::encode_utf8(text), sig) {
                        Ok(key_id)
                    } else {
                        Err("signature verification failed"@)
                    },
                },
            },
        },
    }
}

/// Finishes checking a request signed by an agent.
pub fn agent_auth_finish(
    head: &RequestHead,
    parsed: &ParsedSignature,
    lookup: Result<Option<AgentProfile>, StorageError>,
) -> (r: Result<String, String>)
    ensures
        text_result(r) == agent_auth_finish_outcome(head@, parsed_view(*parsed), lookup_view(lookup)),
{
    let key = match lookup {
        Err(e) => {
            let mut m = to_owned_string("storage error: ");
            let t = e.message();
            push_str(&mut m, t.as_str());
            return Err(m);
        },
        Ok(None) => {
            let mut m = to_owned_string("agent ");
            push_str(&mut m, parsed.key_id.as_str());
            push_str(&mut m, " not registered");
            return Err(m);
        },
        Ok(Some(profile)) => match profile.public_key {
            None => {
                let mut m = to_owned_string("agent ");
                push_str(&mut m, parsed.key_id.as_str());
                push_str(&mut m, " has no public key");
                return Err(m);
            },
            Some(mb) => match decode_multibase_key(mb.as_str()) {
                Ok(k) => k,
                Err(e) => {
                    let mut m = to_owned_string("invalid public key for ");
                    push_str(&mut m, parsed.key_id.as_str());
                    push_str(&mut m, ": ");
                    push_str(&mut m, e.as_str());
                    return Err(m);
                },
            },
        },
    };
    let text = match build_signing_string(head, &parsed.headers, parsed.algorithm.as_str()) {
        Ok(t) => t,
        Err(e) => {
            let mut m = to_owned_string("signing string error: ");
            push_str(&mut m, e.as_str());
            return Err(m);
        },
    };
    let sig = match decode_header_signature(parsed.signature.as_str()) {
        Ok(s) => s,
        Err(e) => {
            return Err(e);
        },
    };
    if ed25519_verify(&key, text.as_str().as_bytes(), &sig) {
        Ok(copy_string(&parsed.key_id))
    } else {
        Err(to_owned_string("signature verification failed"))
    }
}

// ---------------------------------------------------------------------------
// Outbound signatures
// ---------------------------------------------------------------------------

/// The signing string of an outbound request.
pub open spec fn outbound_signing_string(
    method: Seq<char>,
    path: Seq<char>,
    host: Seq<char>,
    date: Seq<char>,
) -> Seq<char> {
    "(request-target): "@ + method + seq![' '] + path + "\nhost: "@ + host + "\ndate: "@ + date
}

/// The `Signature` header of an outbound request signed with `seed` under
/// `node_did` over `text`.
pub open spec fn outbound_signature_header(node_did: Seq<char>, seed: Seq<u8>, text: Seq<char>) -> Seq<
    char,
> {
    "keyId=\""@ + node_did + "\",algorithm=\"ed25519\",headers=\"(request-target) host date\",signature=\"z"@
        + spec_bs58_encode(spec_ed25519_sign(seed, vstd::utf8::encode_utf8(text))) + "\""@
}

/// The `Signature` header value for an outbound node-to-node request with
/// this `Date` value.
pub fn outbound_signature_at(
    seed: &[u8; 32],
    node_did: &str,
    method: &str,
    path: &str,
    host: &str,
    date: &str,
) -> (r: String)
    ensures
        r@ == outbound_signature_header(
            node_did@,
            seed@,
            outbound_signing_string(method@, path@, host@, date@),
        ),
{
    let mut text = to_owned_string("(request-target): ");
    push_str(&mut text, method);
    push_char(&mut text, ' ');
    push_str(&mut text, path);
    push_str(&mut text, "\nhost: ");
    push_str(&mut text, host);
    push_str(&mut text, "\ndate: ");
    push_str(&mut text, date);
    proof {
        assert(text@ =~= outbound_signing_string(method@, path@, host@, date@));
    }
    let sig = ed25519_sign(seed, text.as_str().as_bytes());
    let enc = bs58_encode(sig.as_slice());
    let mut h = to_owned_string("keyId=\"");
    push_str(&mut h, node_did);
    push_str(&mut h, "\",algorithm=\"ed25519\",headers=\"(request-target) host date\",signature=\"z");
    push_str(&mut h, enc.as_str());
    push_str(&mut h, "\"");
    h
}

/// The `Date` and `Signature` header values for an outbound node-to-node
/// request, dated now.
pub fn build_outbound_signature(
    seed: &[u8; 32],
    node_did: &str,
    method: &str,
    path: &str,
    host: &str,
) -> (r: (String, String))
    ensures
        r.1@ == outbound_signature_header(
            node_did@,
            seed@,
            outbound_signing_string(method@, path@, host@, r.0@),
        ),
        spec_http_date_seconds(r.0@) is Some,
{
    let date = now_http_date();
    let sig = outbound_signature_at(seed, node_did, method, path, host, date.as_str());
    (date, sig)
}

} // verus!
