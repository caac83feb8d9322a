//! Human-readable text rendering of units and graphs.
//!
//! The output is stable plain text for terminals and logs; only the JSON
//! wire format is normative. Lengths are counted in UTF-8 bytes, as Rust's
//! `str::len` counts them.
use vstd::prelude::*;
use vstd::utf8::encode_utf8;
use crate::graph::{by_type_spec, refs_view, Graph};
use crate::keyed::{str_lt, text_lt};
use crate::text::{
    chars_of, contains_text, decimal, lemma_contains_middle, lemma_contains_within, is_white_space, push_char, push_decimal, push_str, string_from_chars,
    string_from_range, trim, trimmed_range, white_space,
};
use crate::types::{Source, SourceView, SemanticUnit, UnitType, UnitView};

verus! {

/// The number of UTF-8 bytes of `s`.
pub open spec fn byte_len(s: Seq<char>) -> nat {
    encode_utf8(s).len()
}

/// The UTF-8 encoding of a concatenation is the concatenation of the
/// encodings.
pub proof fn lemma_encode_concat(a: Seq<char>, b: Seq<char>)
    ensures
        encode_utf8(a + b) == encode_utf8(a) + encode_utf8(b),
    decreases a.len(),
{
    if a.len() == 0 {
        assert(a + b =~= b);
        assert(encode_utf8(a) =~= Seq::<u8>::empty());
        assert(Seq::<u8>::empty() + encode_utf8(b) =~= encode_utf8(b));
    } else {
        lemma_encode_concat(a.drop_first(), b);
        assert((a + b).drop_first() =~= a.drop_first() + b);
        assert((a + b)[0] == a[0]);
    }
}

/// A longer prefix has at least as many bytes, and one more character adds
/// at least one byte.
pub proof fn lemma_prefix_bytes(s: Seq<char>, i: int, j: int)
    requires
        0 <= i <= j <= s.len(),
    ensures
        byte_len(s.take(i)) <= byte_len(s.take(j)),
        i < j ==> byte_len(s.take(i)) < byte_len(s.take(j)),
{
    lemma_encode_concat(s.take(i), s.take(j).skip(i));
    assert(s.take(i) + s.take(j).skip(i) =~= s.take(j));
    if i < j {
        let rest = s.take(j).skip(i);
        assert(encode_utf8(rest) == vstd::utf8::encode_scalar(rest[0] as u32) + encode_utf8(
            rest.drop_first(),
        ));
    }
}

/// The number of UTF-8 bytes of one character.
pub fn char_byte_len(c: char) -> (r: usize)
    ensures
        r == byte_len(seq![c]),
        1 <= r <= 4,
{
    let mut t = String::new();
    push_char(&mut t, c);
    proof {
        assert(t@ =~= seq![c]);
        assert(seq![c].drop_first() =~= Seq::<char>::empty());
        assert(encode_utf8(seq![c]) == vstd::utf8::encode_scalar(c as u32) + encode_utf8(
            Seq::<char>::empty(),
        ));
    }
    t.as_str().len()
}

/// The number of UTF-8 bytes of `s`.
pub fn byte_length(s: &str) -> (r: u128)
    ensures
        r == byte_len(s@),
        r <= 4 * (usize::MAX as u128),
{
    let v = chars_of(s);
    let mut total: u128 = 0;
    let mut i: usize = 0;
    proof {
        assert(v@.take(0) =~= Seq::<char>::empty());
        assert(encode_utf8(Seq::<char>::empty()) =~= Seq::<u8>::empty());
    }
    while i < v.len()
        invariant
            i <= v@.len(),
            v@ == s@,
            total == byte_len(v@.take(i as int)),
            total <= 4 * i,
        decreases v@.len() - i,
    {
        let c = v[i];
        let n = char_byte_len(c);
        proof {
            assert(v@.take(i as int + 1) =~= v@.take(i as int) + seq![c]);
            lemma_encode_concat(v@.take(i as int), seq![c]);
        }
        total = total + n as u128;
        i = i + 1;
    }
    proof {
        assert(v@.take(v@.len() as int) =~= v@);
    }
    assert(i <= usize::MAX);
    total
}

// ---------------------------------------------------------------------------
// Words and wrapping
// ---------------------------------------------------------------------------

/// The words of `s` read so far and the word being read
/// (`str::split_whitespace`).
pub open spec fn word_state(s: Seq<char>) -> (Seq<Seq<char>>, Seq<char>)
    decreases s.len(),
{
    if s.len() == 0 {
        (Seq::empty(), Seq::empty())
    } else {
        let (ws, cur) = word_state(s.drop_last());
        if is_white_space(s.last()) {
            if cur.len() > 0 {
                (ws.push(cur), Seq::empty())
            } else {
                (ws, cur)
            }
        } else {
            (ws, cur.push(s.last()))
        }
    }
}

/// The maximal runs of non-white-space characters of `s`, in order.
pub open spec fn words(s: Seq<char>) -> Seq<Seq<char>> {
    let (ws, cur) = word_state(s);
    if cur.len() > 0 {
        ws.push(cur)
    } else {
        ws
    }
}

/// The words of `s`.
pub fn split_words(s: &str) -> (r: Vec<String>)
    ensures
        r@.map_values(|x: String| x@) == words(s@),
{
    let v = chars_of(s);
    let mut ws: Vec<String> = Vec::new();
    let mut cur: Vec<char> = Vec::new();
    let mut i: usize = 0;
    while i < v.len()
        invariant
            i <= v@.len(),
            v@ == s@,
            (ws@.map_values(|x: String| x@), cur@) == word_state(s@.take(i as int)),
        decreases v@.len() - i,
    {
        proof {
            assert(s@.take(i as int + 1).drop_last() =~= s@.take(i as int));
        }
        if white_space(v[i]) {
            if cur.len() > 0 {
                let w = string_from_chars(&cur);
                let ghost before = ws@.map_values(|x: String| x@);
                ws.push(w);
                proof {
                    assert(ws@.map_values(|x: String| x@) =~= before.push(cur@));
                }
                cur = Vec::new();
            }
        } else {
            cur.push(v[i]);
        }
        i = i + 1;
    }
    proof {
        assert(s@.take(s@.len() as int) =~= s@);
    }
    if cur.len() > 0 {
        let w = string_from_chars(&cur);
        let ghost before = ws@.map_values(|x: String| x@);
        ws.push(w);
        proof {
            assert(ws@.map_values(|x: String| x@) =~= before.push(cur@));
        }
    }
    ws
}

/// The text built from the words `ws`, wrapped at `width` bytes, and the
/// byte length of its last line.
pub open spec fn wrap_state(ws: Seq<Seq<char>>, width: nat) -> (Seq<char>, int)
    decreases ws.len(),
{
    if ws.len() == 0 {
        (seq!['"'], 1)
    } else {
        let (r, l) = wrap_state(ws.drop_last(), width);
        let w = ws.last();
        let n = byte_len(w);
        if l + n + 1 > width {
            (r + seq!['\n', ' '] + w, 1 + n as int)
        } else if l > 1 {
            (r + seq![' '] + w, l + 1 + n)
        } else {
            (r + w, l + n)
        }
    }
}

/// `content` in double quotes; when longer than `width` bytes, its words
/// are re-flowed so that each line fits where it can, and every line after
/// the first starts with one space.
pub open spec fn wrapped(content: Seq<char>, width: nat) -> Seq<char> {
    if byte_len(content) <= width {
        seq!['"'] + content + seq!['"']
    } else {
        wrap_state(words(content), width).0.push('"')
    }
}

/// Quotes `content`, wrapping it at `width` bytes.
pub fn wrap_content(content: &str, width: usize) -> (r: String)
    ensures
        r@ == wrapped(content@, width as nat),
{
    if byte_length(content) <= width as u128 {
        let mut r = String::new();
        push_char(&mut r, '"');
        push_str(&mut r, content);
        push_char(&mut r, '"');
        proof {
            assert(Seq::<char>::empty().push('"') + content@ =~= seq!['"'] + content@);
        }
        return r;
    }
    let ws = split_words(content);
    let ghost wv = ws@.map_values(|x: String| x@);
    let mut r = String::new();
    push_char(&mut r, '"');
    let mut line_len: u128 = 1;
    let mut i: usize = 0;
    proof {
        assert(Seq::<char>::empty().push('"') =~= seq!['"']);
        assert(wv.take(0) =~= Seq::<Seq<char>>::empty());
    }
    while i < ws.len()
        invariant
            i <= ws@.len(),
            wv == ws@.map_values(|x: String| x@),
            wrap_state(wv.take(i as int), width as nat) == (r@, line_len as int),
            1 <= line_len <= width as u128 + 1 + 4 * (usize::MAX as u128),
        decreases ws@.len() - i,
    {
        let w = &ws[i];
        let n = byte_length(w.as_str());
        proof {
            assert(wv.take(i as int + 1).drop_last() =~= wv.take(i as int));
            assert(wv.take(i as int + 1).last() == w@);
        }
        if line_len + n + 1 > width as u128 {
            push_char(&mut r, '\n');
            push_char(&mut r, ' ');
            push_str(&mut r, w.as_str());
            line_len = 1 + n;
            proof {
                assert(Seq::<char>::empty() + r@ == r@);
            }
        } else if line_len > 1 {
            push_char(&mut r, ' ');
            push_str(&mut r, w.as_str());
            line_len = line_len + 1 + n;
        } else {
            push_str(&mut r, w.as_str());
            line_len = line_len + n;
        }
        proof {
            let (pr, pl) = wrap_state(wv.take(i as int), width as nat);
            assert(wrap_state(wv.take(i as int + 1), width as nat).0 =~= r@);
        }
        i = i + 1;
    }
    proof {
        assert(wv.take(wv.len() as int) =~= wv);
    }
    push_char(&mut r, '"');
    r
}

// ---------------------------------------------------------------------------
// Truncation and short ids
// ---------------------------------------------------------------------------

/// How many characters of `t` start before the byte offset `lim`.
pub open spec fn starts_below(t: Seq<char>, lim: nat) -> nat
    decreases t.len(),
{
    if t.len() == 0 {
        0
    } else {
        starts_below(t.drop_last(), lim) + if byte_len(t.drop_last()) < lim {
            1nat
        } else {
            0nat
        }
    }
}

/// `s` trimmed; when longer than `max` bytes, cut after the last character
/// that starts before byte `max - 1`, followed by an ellipsis.
pub open spec fn truncated(s: Seq<char>, max: nat) -> Seq<char> {
    let t = trim(s);
    if byte_len(t) <= max {
        t
    } else {
        t.take(starts_below(t, (max - 1) as nat) as int).push('\u{2026}')
    }
}

/// Past a prefix that reaches `lim` bytes, no more characters start below
/// `lim`.
proof fn lemma_starts_below_stable(t: Seq<char>, i: int, lim: nat)
    requires
        0 <= i <= t.len(),
        byte_len(t.take(i)) >= lim,
    ensures
        starts_below(t, lim) == starts_below(t.take(i), lim),
    decreases t.len() - i,
{
    if i < t.len() {
        let d = t.drop_last();
        assert(d.take(i) =~= t.take(i));
        lemma_starts_below_stable(d, i, lim);
        lemma_prefix_bytes(t, i, t.len() - 1);
        assert(t.take(t.len() - 1) =~= d);
    } else {
        assert(t.take(i) =~= t);
    }
}

/// Trims `s` and cuts it to about `max` bytes, ending with an ellipsis when
/// cut.
pub fn truncate(s: &str, max: usize) -> (r: String)
    requires
        max >= 2,
    ensures
        r@ == truncated(s@, max as nat),
{
    let v = chars_of(s);
    let t = trimmed_range(&v, 0, v.len());
    proof {
        assert(v@.subrange(0, v@.len() as int) =~= s@);
    }
    if byte_length(t.as_str()) <= max as u128 {
        return t;
    }
    let tv = chars_of(t.as_str());
    let lim: u128 = max as u128 - 1;
    let mut i: usize = 0;
    let mut off: u128 = 0;
    proof {
        assert(tv@.take(0) =~= Seq::<char>::empty());
        assert(encode_utf8(Seq::<char>::empty()) =~= Seq::<u8>::empty());
    }
    while i < tv.len() && off < lim
        invariant
            i <= tv@.len(),
            tv@ == t@,
            lim == max - 1,
            off == byte_len(tv@.take(i as int)),
            off <= lim + 4,
            starts_below(tv@.take(i as int), lim as nat) == i,
        decreases tv@.len() - i,
    {
        let c = tv[i];
        let n = char_byte_len(c);
        proof {
            assert(tv@.take(i as int + 1) =~= tv@.take(i as int) + seq![c]);
            lemma_encode_concat(tv@.take(i as int), seq![c]);
            assert(tv@.take(i as int + 1).drop_last() =~= tv@.take(i as int));
        }
        off = off + n as u128;
        i = i + 1;
    }
    proof {
        if i < tv.len() {
            lemma_starts_below_stable(tv@, i as int, lim as nat);
        } else {
            assert(tv@.take(i as int) =~= tv@);
        }
    }
    let mut r = string_from_range(&tv, 0, i);
    push_char(&mut r, '\u{2026}');
    proof {
        assert(tv@.subrange(0, i as int) =~= tv@.take(i as int));
    }
    r
}

/// Whether some prefix of `id` has exactly `min(8, bytes of id)` bytes, so
/// that the first eight bytes end on a character boundary.
pub open spec fn short_id_cut(id: Seq<char>, k: int) -> bool {
    0 <= k <= id.len() && byte_len(id.take(k)) == if byte_len(id) < 8 {
        byte_len(id)
    } else {
        8
    }
}

/// Whether the first eight bytes of `id` (all of it when shorter) end on a
/// character boundary.
pub open spec fn has_short_cut(id: Seq<char>) -> bool {
    exists|k: int| short_id_cut(id, k)
}

/// Whether the first eight bytes of `id` (all of it when shorter) end on a
/// character boundary.
pub fn has_short_id(id: &str) -> (r: bool)
    ensures
        r == has_short_cut(id@),
{
    let total = byte_length(id);
    let target: u128 = if total < 8 {
        total
    } else {
        8
    };
    let v = chars_of(id);
    let mut i: usize = 0;
    let mut off: u128 = 0;
    proof {
        assert(v@.take(0) =~= Seq::<char>::empty());
        assert(encode_utf8(Seq::<char>::empty()) =~= Seq::<u8>::empty());
        assert(v@.take(v@.len() as int) =~= v@);
    }
    while off < target && i < v.len()
        invariant
            v@ == id@,
            v@.len() == v.len(),
            i <= v@.len(),
            off == byte_len(v@.take(i as int)),
            target <= byte_len(v@),
            target == (if byte_len(id@) < 8 {
                byte_len(id@)
            } else {
                8
            }),
            i > 0 ==> byte_len(v@.take(i - 1)) < target,
        decreases v@.len() - i,
    {
        let c = v[i];
        let n = char_byte_len(c);
        proof {
            assert(v@.take(i as int + 1) =~= v@.take(i as int) + seq![c]);
            lemma_encode_concat(v@.take(i as int), seq![c]);
        }
        off = off + n as u128;
        i = i + 1;
    }
    proof {
        if off == target {
            assert(short_id_cut(id@, i as int));
        } else {
            if off < target {
                assert(v@.take(i as int) =~= v@);
            }
            assert forall|k: int| !short_id_cut(id@, k) by {
                if 0 <= k <= id@.len() {
                    if k < i {
                        lemma_prefix_bytes(v@, k, i - 1);
                    } else {
                        lemma_prefix_bytes(v@, i as int, k);
                    }
                }
            }
        }
    }
    off == target
}

/// The first eight bytes of `id` (all of it when shorter).
pub fn short_id(id: &str) -> (r: String)
    requires
        has_short_cut(id@),
    ensures
        exists|k: int| short_id_cut(id@, k) && r@ == id@.take(k),
{
    let total = byte_length(id);
    let target: u128 = if total < 8 {
        total
    } else {
        8
    };
    let v = chars_of(id);
    let ghost k = choose|k: int| short_id_cut(id@, k);
    let mut i: usize = 0;
    let mut off: u128 = 0;
    proof {
        assert(v@.take(0) =~= Seq::<char>::empty());
        assert(encode_utf8(Seq::<char>::empty()) =~= Seq::<u8>::empty());
    }
    while off < target
        invariant
            v@ == id@,
            k <= v@.len(),
            v@.len() == v.len(),
            short_id_cut(id@, k),
            target == byte_len(id@.take(k)),
            i <= k,
            off == byte_len(v@.take(i as int)),
            off <= target,
        decreases k - i,
    {
        proof {
            if i == k {
                assert(false);
            }
            lemma_prefix_bytes(v@, i as int + 1, k);
        }
        let c = v[i];
        let n = char_byte_len(c);
        proof {
            assert(v@.take(i as int + 1) =~= v@.take(i as int) + seq![c]);
            lemma_encode_concat(v@.take(i as int), seq![c]);
        }
        off = off + n as u128;
        i = i + 1;
    }
    proof {
        if i < k {
            lemma_prefix_bytes(v@, i as int, k);
        }
    }
    let r = string_from_range(&v, 0, i);
    proof {
        assert(v@.subrange(0, i as int) =~= v@.take(i as int));
    }
    r
}

// ---------------------------------------------------------------------------
// Ordering
// ---------------------------------------------------------------------------

/// `x` inserted into `s` before the first element whose key does not come
/// before `x`'s.
pub open spec fn insert_by<V>(s: Seq<V>, x: V, key: spec_fn(V) -> Seq<char>) -> Seq<V>
    decreases s.len(),
{
    if s.len() == 0 {
        seq![x]
    } else if text_lt(key(s[0]), key(x)) {
        seq![s[0]] + insert_by(s.drop_first(), x, key)
    } else {
        seq![x] + s
    }
}

/// The elements of `s` in ascending key order, equal keys keeping their
/// order (a stable insertion sort).
pub open spec fn sort_by<V>(s: Seq<V>, key: spec_fn(V) -> Seq<char>) -> Seq<V>
    decreases s.len(),
{
    if s.len() == 0 {
        Seq::empty()
    } else {
        insert_by(sort_by(s.drop_last(), key), s.last(), key)
    }
}

/// Inserting before the first element that does not come before `x`.
proof fn lemma_insert_by_at<V>(s: Seq<V>, x: V, key: spec_fn(V) -> Seq<char>, i: int)
    requires
        0 <= i <= s.len(),
        forall|j: int| 0 <= j < i ==> text_lt(key(#[trigger] s[j]), key(x)),
        i < s.len() ==> !text_lt(key(s[i]), key(x)),
    ensures
        insert_by(s, x, key) == s.take(i).push(x) + s.skip(i),
    decreases s.len(),
{
    if s.len() == 0 {
        assert(s.take(i).push(x) + s.skip(i) =~= seq![x]);
    } else if i == 0 {
        assert(s.take(0).push(x) + s.skip(0) =~= seq![x] + s);
    } else {
        assert(text_lt(key(s[0]), key(x)));
        let d = s.drop_first();
        assert forall|j: int| 0 <= j < i - 1 implies text_lt(key(#[trigger] d[j]), key(x)) by {
            assert(d[j] == s[j + 1]);
        }
        lemma_insert_by_at(d, x, key, i - 1);
        assert(seq![s[0]] + (d.take(i - 1).push(x) + d.skip(i - 1)) =~= s.take(i).push(x) + s.skip(i));
    }
}

/// The name of an extension entry.
pub open spec fn entry_name() -> spec_fn((Seq<char>, Seq<char>)) -> Seq<char> {
    |e: (Seq<char>, Seq<char>)| e.0
}

/// The id of a unit.
pub open spec fn unit_id() -> spec_fn(UnitView) -> Seq<char> {
    |u: UnitView| u.id
}

/// Extension entries in ascending name order.
fn sorted_entries(u: &SemanticUnit) -> (r: Vec<(String, String)>)
    ensures
        r@.map_values(|e: (String, String)| (e.0@, e.1@)) == sort_by(u@.extensions, entry_name()),
{
    let ghost e = u@.extensions;
    let mut out: Vec<(String, String)> = Vec::new();
    let mut i: usize = 0;
    let n = u.extensions.len();
    while i < n
        invariant
            i <= n,
            n == e.len(),
            e == u@.extensions,
            out@.map_values(|x: (String, String)| (x.0@, x.1@)) == sort_by(e.take(i as int), entry_name()),
        decreases n - i,
    {
        let (k, v) = u.extensions.entry(i);
        let ghost sv = out@.map_values(|x: (String, String)| (x.0@, x.1@));
        let ghost x = (k@, v@);
        let mut j: usize = 0;
        while j < out.len() && str_lt(out[j].0.as_str(), k.as_str())
            invariant
                j <= out@.len(),
                sv == out@.map_values(|y: (String, String)| (y.0@, y.1@)),
                x == (k@, v@),
                forall|m: int| 0 <= m < j ==> text_lt(entry_name()(#[trigger] sv[m]), entry_name()(x)),
            decreases out@.len() - j,
        {
            proof {
                assert(sv[j as int] == (out@[j as int].0@, out@[j as int].1@));
                assert(entry_name()(sv[j as int]) == out@[j as int].0@);
            }
            j = j + 1;
        }
        proof {
            if j < out.len() {
                assert(sv[j as int] == (out@[j as int].0@, out@[j as int].1@));
            }
            lemma_insert_by_at(sv, x, entry_name(), j as int);
            assert(e.take(i as int + 1).drop_last() =~= e.take(i as int));
            assert(e.take(i as int + 1).last() == x);
        }
        out.insert(j, (k.clone(), v.clone()));
        proof {
            assert(out@.map_values(|y: (String, String)| (y.0@, y.1@)) =~= sv.take(j as int).push(x)
                + sv.skip(j as int));
        }
        i = i + 1;
    }
    proof {
        assert(e.take(n as int) =~= e);
    }
    out
}

/// Units in ascending id order.
fn sorted_by_id<'a>(v: Vec<&'a SemanticUnit>) -> (r: Vec<&'a SemanticUnit>)
    ensures
        refs_view(r@) == sort_by(refs_view(v@), unit_id()),
{
    let ghost e = refs_view(v@);
    let mut out: Vec<&SemanticUnit> = Vec::new();
    let mut i: usize = 0;
    while i < v.len()
        invariant
            i <= v@.len(),
            e == refs_view(v@),
            refs_view(out@) == sort_by(e.take(i as int), unit_id()),
        decreases v@.len() - i,
    {
        let u = v[i];
        let ghost sv = refs_view(out@);
        let mut j: usize = 0;
        while j < out.len() && str_lt(out[j].id.as_str(), u.id.as_str())
            invariant
                j <= out@.len(),
                sv == refs_view(out@),
                forall|m: int| 0 <= m < j ==> text_lt(unit_id()(#[trigger] sv[m]), unit_id()(u@)),
            decreases out@.len() - j,
        {
            j = j + 1;
        }
        proof {
            lemma_insert_by_at(sv, u@, unit_id(), j as int);
            assert(e.take(i as int + 1).drop_last() =~= e.take(i as int));
            assert(e.take(i as int + 1).last() == u@);
        }
        out.insert(j, u);
        proof {
            assert(refs_view(out@) =~= sv.take(j as int).push(u@) + sv.skip(j as int));
        }
        i = i + 1;
    }
    proof {
        assert(e.take(v@.len() as int) =~= e);
    }
    out
}

// ---------------------------------------------------------------------------
// Units
// ---------------------------------------------------------------------------

/// The header line: `[type] author`, and the confidence text when given.
pub open spec fn header_line(u: UnitView, confidence: Option<Seq<char>>) -> Seq<char> {
    seq!['['] + u.unit_type.name() + "] "@ + u.author + match confidence {
        Some(c) => "  confidence: "@ + c,
        None => Seq::empty(),
    } + seq!['\n']
}

/// The source block.
pub open spec fn source_block(src: Option<SourceView>) -> Seq<char> {
    match src {
        None => Seq::empty(),
        Some(SourceView::Uri(u)) => "\nSource: "@ + u + seq!['\n'],
        Some(SourceView::Labeled(label, Some(u))) => "\nSource: "@ + label + " <"@ + u + ">\n"@,
        Some(SourceView::Labeled(label, None)) => "\nSource: "@ + label + seq!['\n'],
    }
}

/// One bulleted line per assumption.
pub open spec fn assumption_lines(a: Seq<Seq<char>>) -> Seq<char>
    decreases a.len(),
{
    if a.len() == 0 {
        Seq::empty()
    } else {
        assumption_lines(a.drop_last()) + "  \u{2022} "@ + a.last() + seq!['\n']
    }
}

/// The assumptions block.
pub open spec fn assumptions_block(a: Option<Seq<Seq<char>>>) -> Seq<char> {
    match a {
        None => Seq::empty(),
        Some(a) => "\nAssumptions:\n"@ + assumption_lines(a),
    }
}

/// One line per reference: its relationship and the id it references.
pub open spec fn reference_lines(rs: Seq<(Seq<char>, crate::types::RelType)>) -> Seq<char>
    decreases rs.len(),
{
    if rs.len() == 0 {
        Seq::empty()
    } else {
        reference_lines(rs.drop_last()) + "  "@ + rs.last().1.name() + "  "@ + rs.last().0 + seq!['\n']
    }
}

/// The references block.
pub open spec fn references_block(rs: Option<Seq<(Seq<char>, crate::types::RelType)>>) -> Seq<char> {
    match rs {
        None => Seq::empty(),
        Some(rs) => "\nReferences:\n"@ + reference_lines(rs),
    }
}

/// One `name: value` line per extension entry.
pub open spec fn extension_lines(e: Seq<(Seq<char>, Seq<char>)>) -> Seq<char>
    decreases e.len(),
{
    if e.len() == 0 {
        Seq::empty()
    } else {
        extension_lines(e.drop_last()) + "  "@ + e.last().0 + ": "@ + e.last().1 + seq!['\n']
    }
}

/// The extensions block, entries in ascending name order.
pub open spec fn extensions_block(e: Seq<(Seq<char>, Seq<char>)>) -> Seq<char> {
    if e.len() == 0 {
        Seq::empty()
    } else {
        "\nExtensions:\n"@ + extension_lines(sort_by(e, entry_name()))
    }
}

/// The text of a unit: header, wrapped content, source, assumptions,
/// references, extensions and the id/created footer. `confidence` is the
/// confidence written with two decimals, when the unit has one.
pub open spec fn rendered_unit(u: UnitView, confidence: Option<Seq<char>>) -> Seq<char> {
    header_line(u, confidence) + wrapped(u.content, 80) + seq!['\n'] + source_block(u.source)
        + assumptions_block(u.assumptions) + references_block(u.references) + extensions_block(
        u.extensions,
    ) + "\nid: "@ + u.id + "  created: "@ + u.created_at + seq!['\n']
}

/// A source block shows the source between any two texts.
proof fn lemma_source_shows(pre: Seq<char>, src: Option<SourceView>, rest: Seq<char>)
    ensures
        match src {
            Some(SourceView::Uri(s)) => contains_text(pre + source_block(src) + rest, "Source: "@ + s),
            Some(SourceView::Labeled(l, uri)) => contains_text(
                pre + source_block(src) + rest,
                "Source: "@ + l,
            ) && match uri {
                Some(s) => contains_text(pre + source_block(src) + rest, "<"@ + s + ">"@),
                None => true,
            },
            None => true,
        },
{
    reveal_strlit("\nSource: ");
    reveal_strlit("Source: ");
    reveal_strlit(" <");
    reveal_strlit(">\n");
    reveal_strlit("<");
    reveal_strlit(">");
    let t = pre + source_block(src) + rest;
    let p = pre + seq!['\n'];
    match src {
        Some(SourceView::Uri(s)) => {
            assert(t =~= p + ("Source: "@ + s) + (seq!['\n'] + rest));
            lemma_contains_middle(p, "Source: "@ + s, seq!['\n'] + rest);
        },
        Some(SourceView::Labeled(l, Some(s))) => {
            assert(t =~= p + ("Source: "@ + l) + (" <"@ + s + ">\n"@ + rest));
            lemma_contains_middle(p, "Source: "@ + l, " <"@ + s + ">\n"@ + rest);
            assert(t =~= (p + "Source: "@ + l + seq![' ']) + ("<"@ + s + ">"@) + (seq!['\n'] + rest));
            lemma_contains_middle(p + "Source: "@ + l + seq![' '], "<"@ + s + ">"@, seq!['\n'] + rest);
        },
        Some(SourceView::Labeled(l, None)) => {
            assert(t =~= p + ("Source: "@ + l) + (seq!['\n'] + rest));
            lemma_contains_middle(p, "Source: "@ + l, seq!['\n'] + rest);
        },
        None => {},
    }
}

/// The source of a unit shows in its text: a URI source as `Source: ` and
/// the URI; a labelled one as `Source: ` and the label, then the URI in
/// angle brackets when it has one. The header names the author, and the
/// footer the id.
#[verifier::spinoff_prover]
pub proof fn lemma_rendered_unit_shows(u: UnitView, c: Option<Seq<char>>)
    ensures
        contains_text(rendered_unit(u, c), "] "@ + u.author),
        contains_text(rendered_unit(u, c), "id: "@ + u.id),
        match u.source {
            Some(SourceView::Uri(s)) => contains_text(rendered_unit(u, c), "Source: "@ + s),
            Some(SourceView::Labeled(l, uri)) => contains_text(rendered_unit(u, c), "Source: "@ + l)
                && match uri {
                Some(s) => contains_text(rendered_unit(u, c), "<"@ + s + ">"@),
                None => true,
            },
            None => true,
        },
{
    let r = rendered_unit(u, c);
    let conf = match c {
        Some(t) => "  confidence: "@ + t,
        None => Seq::<char>::empty(),
    };
    let w = wrapped(u.content, 80);
    let sb = source_block(u.source);
    let blocks = assumptions_block(u.assumptions) + references_block(u.references) + extensions_block(
        u.extensions,
    );
    let tail = "  created: "@ + u.created_at + seq!['\n'];
    let hl = header_line(u, c);
    assert(hl == seq!['['] + u.unit_type.name() + "] "@ + u.author + conf + seq!['\n']);
    assert(r == hl + w + seq!['\n'] + sb + blocks + "\nid: "@ + u.id + tail);
    assert(r =~= (seq!['['] + u.unit_type.name()) + ("] "@ + u.author) + (conf + seq!['\n'] + w
        + seq!['\n'] + sb + blocks + "\nid: "@ + u.id + tail));
    lemma_contains_middle(seq!['['] + u.unit_type.name(), "] "@ + u.author, conf + seq!['\n'] + w
        + seq!['\n'] + sb + blocks + "\nid: "@ + u.id + tail);
    assert("\nid: "@ =~= seq!['\n'] + "id: "@) by {
        reveal_strlit("\nid: ");
        reveal_strlit("id: ");
    }
    let before_id = hl + w + seq!['\n'] + sb + blocks + seq!['\n'];
    assert(r =~= before_id + ("id: "@ + u.id) + tail);
    lemma_contains_middle(before_id, "id: "@ + u.id, tail);
    let pre = hl + w + seq!['\n'];
    let rest = blocks + "\nid: "@ + u.id + tail;
    assert(r =~= pre + sb + rest);
    lemma_source_shows(pre, u.source, rest);
}

/// Appends the source block of `unit`.
fn push_source(out: &mut String, unit: &SemanticUnit)
    ensures
        final(out)@ == old(out)@ + source_block(unit@.source),
{
    match &unit.source {
        None => {},
        Some(Source::Uri(u)) => {
            push_str(out, "\nSource: ");
            push_str(out, u.as_str());
            push_char(out, '\n');
        },
        Some(Source::Labeled { label, uri }) => {
            push_str(out, "\nSource: ");
            push_str(out, label.as_str());
            match uri {
                Some(u) => {
                    push_str(out, " <");
                    push_str(out, u.as_str());
                    push_str(out, ">\n");
                },
                None => {
                    push_char(out, '\n');
                },
            }
        },
    }
    proof {
        assert(final(out)@ =~= old(out)@ + source_block(unit@.source));
    }
}

/// Appends the assumptions block of `unit`.
fn push_assumptions(out: &mut String, unit: &SemanticUnit)
    ensures
        final(out)@ == old(out)@ + assumptions_block(unit@.assumptions),
{
    match &unit.assumptions {
        None => {
            proof {
                assert(old(out)@ + Seq::<char>::empty() =~= old(out)@);
            }
        },
        Some(a) => {
            push_str(out, "\nAssumptions:\n");
            let ghost start = out@;
            let ghost av = crate::types::strings_view(a@);
            let mut i: usize = 0;
            proof {
                assert(av.take(0) =~= Seq::<Seq<char>>::empty());
                assert(start + Seq::<char>::empty() =~= start);
            }
            while i < a.len()
                invariant
                    i <= a@.len(),
                    av == crate::types::strings_view(a@),
                    out@ == start + assumption_lines(av.take(i as int)),
                decreases a@.len() - i,
            {
                push_str(out, "  \u{2022} ");
                push_str(out, a[i].as_str());
                push_char(out, '\n');
                proof {
                    assert(av.take(i as int + 1).drop_last() =~= av.take(i as int));
                    assert(av[i as int] == a@[i as int]@);
                    assert(out@ =~= start + assumption_lines(av.take(i as int + 1)));
                }
                i = i + 1;
            }
            proof {
                assert(av.take(a@.len() as int) =~= av);
                assert(final(out)@ =~= old(out)@ + assumptions_block(unit@.assumptions));
            }
        },
    }
}

/// Appends the references block of `unit`.
fn push_references(out: &mut String, unit: &SemanticUnit)
    ensures
        final(out)@ == old(out)@ + references_block(unit@.references),
{
    match &unit.references {
        None => {
            proof {
                assert(old(out)@ + Seq::<char>::empty() =~= old(out)@);
            }
        },
        Some(rs) => {
            push_str(out, "\nReferences:\n");
            let ghost start = out@;
            let ghost rv = crate::types::references_view(rs@);
            let mut i: usize = 0;
            proof {
                assert(rv.take(0) =~= Seq::<(Seq<char>, crate::types::RelType)>::empty());
                assert(start + Seq::<char>::empty() =~= start);
            }
            while i < rs.len()
                invariant
                    i <= rs@.len(),
                    rv == crate::types::references_view(rs@),
                    out@ == start + reference_lines(rv.take(i as int)),
                decreases rs@.len() - i,
            {
                push_str(out, "  ");
                push_str(out, rs[i].rel.as_str());
                push_str(out, "  ");
                push_str(out, rs[i].id.as_str());
                push_char(out, '\n');
                proof {
                    assert(rv.take(i as int + 1).drop_last() =~= rv.take(i as int));
                    assert(rv[i as int] == (rs@[i as int].id@, rs@[i as int].rel));
                    assert(out@ =~= start + reference_lines(rv.take(i as int + 1)));
                }
                i = i + 1;
            }
            proof {
                assert(rv.take(rs@.len() as int) =~= rv);
                assert(final(out)@ =~= old(out)@ + references_block(unit@.references));
            }
        },
    }
}

/// Appends the extensions block of `unit`.
fn push_extensions(out: &mut String, unit: &SemanticUnit)
    ensures
        final(out)@ == old(out)@ + extensions_block(unit@.extensions),
{
    if unit.extensions.is_empty() {
        proof {
            assert(old(out)@ + Seq::<char>::empty() =~= old(out)@);
        }
        return;
    }
    push_str(out, "\nExtensions:\n");
    let entries = sorted_entries(unit);
    let ghost ev = entries@.map_values(|x: (String, String)| (x.0@, x.1@));
    let ghost start = out@;
    let mut i: usize = 0;
    proof {
        assert(ev.take(0) =~= Seq::<(Seq<char>, Seq<char>)>::empty());
        assert(start + Seq::<char>::empty() =~= start);
    }
    while i < entries.len()
        invariant
            i <= entries@.len(),
            ev == entries@.map_values(|x: (String, String)| (x.0@, x.1@)),
            out@ == start + extension_lines(ev.take(i as int)),
        decreases entries@.len() - i,
    {
        push_str(out, "  ");
        push_str(out, entries[i].0.as_str());
        push_str(out, ": ");
        push_str(out, entries[i].1.as_str());
        push_char(out, '\n');
        proof {
            assert(ev.take(i as int + 1).drop_last() =~= ev.take(i as int));
            assert(ev[i as int] == (entries@[i as int].0@, entries@[i as int].1@));
            assert(out@ =~= start + extension_lines(ev.take(i as int + 1)));
        }
        i = i + 1;
    }
    proof {
        assert(ev.take(entries@.len() as int) =~= ev);
        assert(final(out)@ =~= old(out)@ + extensions_block(unit@.extensions));
    }
}

/// Renders a unit as indented plain text. `confidence` is the unit's
/// confidence formatted with two decimals (`{:.2}`), which the caller
/// supplies exactly when the unit has one.
#[verifier::spinoff_prover]
pub fn render_unit(unit: &SemanticUnit, confidence: Option<&str>) -> (r: String)
    requires
        confidence is Some <==> unit@.confidence is Some,
    ensures
        r@ == rendered_unit(
            unit@,
            match confidence {
                Some(c) => Some(c@),
                None => None,
            },
        ),
        contains_text(r@, "] "@ + unit@.author),
        contains_text(r@, "id: "@ + unit@.id),
        match unit@.source {
            Some(SourceView::Uri(s)) => contains_text(r@, "Source: "@ + s),
            Some(SourceView::Labeled(l, uri)) => contains_text(r@, "Source: "@ + l) && match uri {
                Some(s) => contains_text(r@, "<"@ + s + ">"@),
                None => true,
            },
            None => true,
        },
{
    let mut out = String::new();
    push_char(&mut out, '[');
    push_str(&mut out, unit.unit_type.as_str());
    push_str(&mut out, "] ");
    push_str(&mut out, unit.author.as_str());
    match confidence {
        Some(c) => {
            push_str(&mut out, "  confidence: ");
            push_str(&mut out, c);
        },
        None => {},
    }
    push_char(&mut out, '\n');
    let wrapped_text = wrap_content(unit.content.as_str(), 80);
    push_str(&mut out, wrapped_text.as_str());
    push_char(&mut out, '\n');
    proof {
        assert(out@ =~= header_line(
            unit@,
            match confidence {
                Some(c) => Some(c@),
                None => None,
            },
        ) + wrapped(unit@.content, 80) + seq!['\n']);
    }
    push_source(&mut out, unit);
    push_assumptions(&mut out, unit);
    push_references(&mut out, unit);
    push_extensions(&mut out, unit);
    push_str(&mut out, "\nid: ");
    push_str(&mut out, unit.id.as_str());
    push_str(&mut out, "  created: ");
    push_str(&mut out, unit.created_at.as_str());
    push_char(&mut out, '\n');
    proof {
        let c = match confidence {
            Some(c) => Some(c@),
            None => None,
        };
        assert(out@ =~= rendered_unit(unit@, c));
        lemma_rendered_unit_shows(unit@, c);
    }
    out
}

// ---------------------------------------------------------------------------
// Graphs
// ---------------------------------------------------------------------------

/// The first eight bytes of `id` (all of it when shorter).
pub open spec fn short_prefix(id: Seq<char>) -> Seq<char> {
    id.take(choose|k: int| short_id_cut(id, k))
}

/// The line of a unit in a graph summary.
pub open spec fn summary_line(u: UnitView) -> Seq<char> {
    "  ["@ + short_prefix(u.id) + "]  \""@ + truncated(u.content, 72) + "\"\n"@
}

/// The lines of units in a graph summary.
pub open spec fn summary_lines(us: Seq<UnitView>) -> Seq<char>
    decreases us.len(),
{
    if us.len() == 0 {
        Seq::empty()
    } else {
        summary_lines(us.drop_last()) + summary_line(us.last())
    }
}

/// The group of units of one type, in ascending id order, under its label;
/// nothing when there are none.
pub open spec fn summary_group(label: Seq<char>, us: Seq<UnitView>) -> Seq<char> {
    if us.len() == 0 {
        Seq::empty()
    } else {
        seq!['\n'] + label + " ("@ + decimal(us.len()) + ")\n"@ + summary_lines(sort_by(us, unit_id()))
    }
}

/// The header of a graph summary.
pub open spec fn graph_header(n: nat) -> Seq<char> {
    "SemanticWeft Graph  "@ + decimal(n) + " unit"@ + if n == 1 {
        Seq::empty()
    } else {
        "s"@
    }
}

/// The summary of a graph: header, a rule as long as the header, and the
/// units grouped by type.
pub open spec fn rendered_graph(g: Seq<UnitView>) -> Seq<char> {
    let h = graph_header(g.len());
    h + seq!['\n'] + Seq::new(byte_len(h), |i: int| '\u{2500}') + seq!['\n'] + summary_group(
        "ASSERTIONS"@,
        by_type_spec(g, UnitType::Assertion),
    ) + summary_group("QUESTIONS"@, by_type_spec(g, UnitType::Question)) + summary_group(
        "INFERENCES"@,
        by_type_spec(g, UnitType::Inference),
    ) + summary_group("CHALLENGES"@, by_type_spec(g, UnitType::Challenge)) + summary_group(
        "CONSTRAINTS"@,
        by_type_spec(g, UnitType::Constraint),
    )
}

/// Appends the group of units of type `t` under `label`.
fn push_group(out: &mut String, graph: &Graph, t: UnitType, label: &str)
    requires
        forall|i: int| 0 <= i < graph@.len() ==> has_short_cut(#[trigger] graph@[i].id),
    ensures
        final(out)@ == old(out)@ + summary_group(label@, by_type_spec(graph@, t)),
{
    let units = graph.by_type(&t);
    if units.len() == 0 {
        return;
    }
    let n = units.len();
    let sorted = sorted_by_id(units);
    push_char(out, '\n');
    push_str(out, label);
    push_str(out, " (");
    push_decimal(out, n as u64);
    push_str(out, ")\n");
    let ghost start = out@;
    let ghost sv = refs_view(sorted@);
    let mut i: usize = 0;
    while i < sorted.len()
        invariant
            i <= sorted@.len(),
            sv == refs_view(sorted@),
            sv == sort_by(by_type_spec(graph@, t), unit_id()),
            out@ == start + summary_lines(sv.take(i as int)),
            forall|j: int| 0 <= j < graph@.len() ==> has_short_cut(#[trigger] graph@[j].id),
        decreases sorted@.len() - i,
    {
        let u = sorted[i];
        proof {
            assert(sv[i as int] == u@);
            lemma_sorted_member(by_type_spec(graph@, t), unit_id(), i as int);
            let m = choose|m: int| 0 <= m < by_type_spec(graph@, t).len() && by_type_spec(graph@, t)[m] == sv[i as int];
            assert(by_type_spec(graph@, t).contains(u@));
            graph@.lemma_filter_contains_rev(|x: UnitView| x.unit_type == t, u@);
            let gi = choose|gi: int| 0 <= gi < graph@.len() && graph@[gi] == u@;
            assert(has_short_cut(graph@[gi].id));
        }
        let sid = short_id(u.id.as_str());
        let excerpt = truncate(u.content.as_str(), 72);
        push_str(out, "  [");
        push_str(out, sid.as_str());
        push_str(out, "]  \"");
        push_str(out, excerpt.as_str());
        push_str(out, "\"\n");
        proof {
            let k = choose|k: int| short_id_cut(u@.id, k) && sid@ == u@.id.take(k);
            lemma_short_cut_unique(u@.id, k, choose|k2: int| short_id_cut(u@.id, k2));
            assert(sv.take(i as int + 1).drop_last() =~= sv.take(i as int));
            assert(out@ =~= start + summary_lines(sv.take(i as int + 1)));
        }
        i = i + 1;
    }
    proof {
        assert(sv.take(sorted@.len() as int) =~= sv);
        assert(by_type_spec(graph@, t).len() == n);
    }
}

/// Two cuts of the same id are the same.
proof fn lemma_short_cut_unique(id: Seq<char>, a: int, b: int)
    requires
        short_id_cut(id, a),
        short_id_cut(id, b),
    ensures
        a == b,
{
    if a < b {
        lemma_prefix_bytes(id, a, b);
    } else if b < a {
        lemma_prefix_bytes(id, b, a);
    }
}

/// Every element of the sorted sequence is an element of the original.
proof fn lemma_sorted_member<V>(s: Seq<V>, key: spec_fn(V) -> Seq<char>, i: int)
    requires
        0 <= i < sort_by(s, key).len(),
    ensures
        s.contains(sort_by(s, key)[i]),
    decreases s.len(),
{
    lemma_sort_members(s, key);
}

/// Sorting keeps the elements and the length.
proof fn lemma_sort_members<V>(s: Seq<V>, key: spec_fn(V) -> Seq<char>)
    ensures
        sort_by(s, key).len() == s.len(),
        forall|i: int| 0 <= i < sort_by(s, key).len() ==> s.contains(#[trigger] sort_by(s, key)[i]),
    decreases s.len(),
{
    if s.len() > 0 {
        let d = s.drop_last();
        lemma_sort_members(d, key);
        lemma_insert_members(sort_by(d, key), s.last(), key);
        assert forall|i: int| 0 <= i < sort_by(s, key).len() implies s.contains(#[trigger] sort_by(s, key)[i]) by {
            let x = sort_by(s, key)[i];
            if x == s.last() {
                assert(s[s.len() - 1] == x);
            } else {
                let j = choose|j: int| 0 <= j < sort_by(d, key).len() && sort_by(d, key)[j] == x;
                assert(d.contains(sort_by(d, key)[j]));
                let m = choose|m: int| 0 <= m < d.len() && d[m] == x;
                assert(s[m] == x);
            }
        }
    }
}

/// Inserting adds one element and keeps the others.
proof fn lemma_insert_members<V>(s: Seq<V>, x: V, key: spec_fn(V) -> Seq<char>)
    ensures
        insert_by(s, x, key).len() == s.len() + 1,
        forall|i: int|
            0 <= i < insert_by(s, x, key).len() ==> (#[trigger] insert_by(s, x, key)[i] == x || s.contains(
                insert_by(s, x, key)[i],
            )),
    decreases s.len(),
{
    if s.len() > 0 && text_lt(key(s[0]), key(x)) {
        let d = s.drop_first();
        lemma_insert_members(d, x, key);
        assert forall|i: int| 0 <= i < insert_by(s, x, key).len() implies (#[trigger] insert_by(s, x, key)[i] == x || s.contains(
            insert_by(s, x, key)[i],
        )) by {
            if i == 0 {
                assert(s[0] == insert_by(s, x, key)[0]);
            } else {
                let y = insert_by(s, x, key)[i];
                assert(y == insert_by(d, x, key)[i - 1]);
                if y != x {
                    let m = choose|m: int| 0 <= m < d.len() && d[m] == y;
                    assert(s[m + 1] == y);
                }
            }
        }
    } else if s.len() > 0 {
        assert forall|i: int| 0 <= i < insert_by(s, x, key).len() implies (#[trigger] insert_by(s, x, key)[i] == x || s.contains(
            insert_by(s, x, key)[i],
        )) by {
            if i > 0 {
                assert(insert_by(s, x, key)[i] == s[i - 1]);
            }
        }
    }
}

/// Inserting keeps every element and adds the inserted one.
proof fn lemma_insert_keeps<V>(s: Seq<V>, x: V, key: spec_fn(V) -> Seq<char>)
    ensures
        insert_by(s, x, key).contains(x),
        forall|y: V| s.contains(y) ==> #[trigger] insert_by(s, x, key).contains(y),
    decreases s.len(),
{
    let t = insert_by(s, x, key);
    if s.len() == 0 {
        assert(t[0] == x);
    } else if text_lt(key(s[0]), key(x)) {
        let d = s.drop_first();
        lemma_insert_keeps(d, x, key);
        assert(t == seq![s[0]] + insert_by(d, x, key));
        let k = choose|k: int| 0 <= k < insert_by(d, x, key).len() && insert_by(d, x, key)[k] == x;
        assert(t[k + 1] == x);
        assert forall|y: V| s.contains(y) implies #[trigger] t.contains(y) by {
            let j = choose|j: int| 0 <= j < s.len() && s[j] == y;
            if j == 0 {
                assert(t[0] == y);
            } else {
                assert(0 <= j - 1 < d.len());
                assert(d[j - 1] == s[j]);
                assert(d[j - 1] == y);
                assert(d.contains(y));
                assert(insert_by(d, x, key).contains(y));
                let m = choose|m: int| 0 <= m < insert_by(d, x, key).len() && insert_by(d, x, key)[m] == y;
                assert(t[m + 1] == y);
            }
        }
    } else {
        assert(t[0] == x);
        assert forall|y: V| s.contains(y) implies #[trigger] t.contains(y) by {
            let j = choose|j: int| 0 <= j < s.len() && s[j] == y;
            assert(t[j + 1] == y);
        }
    }
}

/// Sorting keeps every element.
proof fn lemma_sort_keeps<V>(s: Seq<V>, key: spec_fn(V) -> Seq<char>)
    ensures
        forall|y: V| s.contains(y) ==> #[trigger] sort_by(s, key).contains(y),
    decreases s.len(),
{
    if s.len() > 0 {
        let d = s.drop_last();
        lemma_sort_keeps(d, key);
        lemma_insert_keeps(sort_by(d, key), s.last(), key);
        assert forall|y: V| s.contains(y) implies #[trigger] sort_by(s, key).contains(y) by {
            let j = choose|j: int| 0 <= j < s.len() && s[j] == y;
            if j < s.len() - 1 {
                assert(d[j] == y);
                assert(d.contains(y));
            }
        }
    }
}

/// The summary lines show each of their units' lines.
proof fn lemma_summary_lines_show(us: Seq<UnitView>, u: UnitView)
    requires
        us.contains(u),
    ensures
        contains_text(summary_lines(us), summary_line(u)),
    decreases us.len(),
{
    let d = us.drop_last();
    if us.last() == u {
        assert(summary_lines(us) =~= summary_lines(d) + summary_line(u) + Seq::<char>::empty());
        lemma_contains_middle(summary_lines(d), summary_line(u), Seq::<char>::empty());
    } else {
        let j = choose|j: int| 0 <= j < us.len() && us[j] == u;
        assert(d[j] == u);
        lemma_summary_lines_show(d, u);
        assert(summary_lines(us) =~= Seq::<char>::empty() + summary_lines(d) + summary_line(us.last()));
        lemma_contains_within(Seq::<char>::empty(), summary_lines(d), summary_line(us.last()), summary_line(u));
    }
}

/// A group shows the line of each of its units.
proof fn lemma_group_shows(label: Seq<char>, us: Seq<UnitView>, u: UnitView)
    requires
        us.contains(u),
    ensures
        contains_text(summary_group(label, us), summary_line(u)),
{
    lemma_sort_keeps(us, unit_id());
    let sorted = sort_by(us, unit_id());
    assert(sorted.contains(u));
    lemma_summary_lines_show(sorted, u);
    let head = seq!['\n'] + label + " ("@ + decimal(us.len()) + ")\n"@;
    assert(summary_group(label, us) =~= head + summary_lines(sorted) + Seq::<char>::empty());
    lemma_contains_within(head, summary_lines(sorted), Seq::<char>::empty(), summary_line(u));
}

/// Every unit of a graph shows in its summary: its first id bytes in
/// brackets and its content (cut at 72 characters) in quotes, on a line
/// under the group of its type.
#[verifier::spinoff_prover]
pub proof fn lemma_rendered_graph_shows(g: Seq<UnitView>)
    ensures
        forall|i: int|
            0 <= i < g.len() ==> contains_text(
                rendered_graph(g),
                "  ["@ + short_prefix(#[trigger] g[i].id) + "]  \""@ + truncated(g[i].content, 72)
                    + "\"\n"@,
            ),
{
    let h = graph_header(g.len());
    let top = h + seq!['\n'] + Seq::new(byte_len(h), |i: int| '\u{2500}') + seq!['\n'];
    let g1 = summary_group("ASSERTIONS"@, by_type_spec(g, UnitType::Assertion));
    let g2 = summary_group("QUESTIONS"@, by_type_spec(g, UnitType::Question));
    let g3 = summary_group("INFERENCES"@, by_type_spec(g, UnitType::Inference));
    let g4 = summary_group("CHALLENGES"@, by_type_spec(g, UnitType::Challenge));
    let g5 = summary_group("CONSTRAINTS"@, by_type_spec(g, UnitType::Constraint));
    let r = rendered_graph(g);
    assert(r == top + g1 + g2 + g3 + g4 + g5);
    assert forall|i: int| 0 <= i < g.len() implies contains_text(
        rendered_graph(g),
        "  ["@ + short_prefix(#[trigger] g[i].id) + "]  \""@ + truncated(g[i].content, 72) + "\"\n"@,
    ) by {
        let u = g[i];
        let line = summary_line(u);
        let t = u.unit_type;
        g.lemma_filter_contains(|v: UnitView| v.unit_type == t, i);
        assert(by_type_spec(g, t).contains(u));
        match t {
            UnitType::Assertion => {
                lemma_group_shows("ASSERTIONS"@, by_type_spec(g, t), u);
                assert(r =~= top + g1 + (g2 + g3 + g4 + g5));
                lemma_contains_within(top, g1, g2 + g3 + g4 + g5, line);
            },
            UnitType::Question => {
                lemma_group_shows("QUESTIONS"@, by_type_spec(g, t), u);
                assert(r =~= (top + g1) + g2 + (g3 + g4 + g5));
                lemma_contains_within(top + g1, g2, g3 + g4 + g5, line);
            },
            UnitType::Inference => {
                lemma_group_shows("INFERENCES"@, by_type_spec(g, t), u);
                assert(r =~= (top + g1 + g2) + g3 + (g4 + g5));
                lemma_contains_within(top + g1 + g2, g3, g4 + g5, line);
            },
            UnitType::Challenge => {
                lemma_group_shows("CHALLENGES"@, by_type_spec(g, t), u);
                assert(r =~= (top + g1 + g2 + g3) + g4 + g5);
                lemma_contains_within(top + g1 + g2 + g3, g4, g5, line);
            },
            UnitType::Constraint => {
                lemma_group_shows("CONSTRAINTS"@, by_type_spec(g, t), u);
                assert(r =~= (top + g1 + g2 + g3 + g4) + g5 + Seq::<char>::empty());
                lemma_contains_within(top + g1 + g2 + g3 + g4, g5, Seq::<char>::empty(), line);
            },
        }
    }
}

/// Renders a graph as a summary grouped by unit type. Every id must have a
/// character boundary at its eighth byte (or be shorter), as UUIDs have.
#[verifier::spinoff_prover]
pub fn render_graph(graph: &Graph) -> (r: String)
    requires
        forall|i: int| 0 <= i < graph@.len() ==> has_short_cut(#[trigger] graph@[i].id),
    ensures
        r@ == rendered_graph(graph@),
        forall|i: int|
            0 <= i < graph@.len() ==> contains_text(
                r@,
                "  ["@ + short_prefix(#[trigger] graph@[i].id) + "]  \""@ + truncated(
                    graph@[i].content,
                    72,
                ) + "\"\n"@,
            ),
{
    let total = graph.len();
    let mut header = crate::text::to_owned_string("SemanticWeft Graph  ");
    push_decimal(&mut header, total as u64);
    push_str(&mut header, " unit");
    if total != 1 {
        push_str(&mut header, "s");
    }
    proof {
        assert(header@ =~= graph_header(graph@.len()));
    }
    let hl = byte_length(header.as_str());
    let mut out = String::new();
    push_str(&mut out, header.as_str());
    push_char(&mut out, '\n');
    let ghost start = out@;
    let mut i: u128 = 0;
    while i < hl
        invariant
            i <= hl,
            hl == byte_len(graph_header(graph@.len())),
            out@ == start + Seq::new(i as nat, |j: int| '\u{2500}'),
        decreases hl - i,
    {
        push_char(&mut out, '\u{2500}');
        proof {
            assert(out@ =~= start + Seq::new((i + 1) as nat, |j: int| '\u{2500}'));
        }
        i = i + 1;
    }
    push_char(&mut out, '\n');
    proof {
        assert(Seq::<char>::empty() + header@ =~= header@);
    }
    push_group(&mut out, graph, UnitType::Assertion, "ASSERTIONS");
    push_group(&mut out, graph, UnitType::Question, "QUESTIONS");
    push_group(&mut out, graph, UnitType::Inference, "INFERENCES");
    push_group(&mut out, graph, UnitType::Challenge, "CHALLENGES");
    push_group(&mut out, graph, UnitType::Constraint, "CONSTRAINTS");
    proof {
        assert(out@ == rendered_graph(graph@));
        lemma_rendered_graph_shows(graph@);
    }
    out
}

} // verus!
