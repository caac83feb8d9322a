//! Spec-conformance validation of [`SemanticUnit`]s.
//!
//! [`validate_unit`] checks a unit against every normative rule, in field
//! order, and reports the first rule broken.
use vstd::prelude::*;
use crate::external::{regex_is_match, rfc3339_instant, spec_rfc3339_instant, spec_uuid_version, uuid_version};
use crate::text::{push_str, to_owned_string};
use crate::types::{strings_view, SemanticUnit, UnitView, Visibility};

verus! {

/// Why a unit is not conformant.
#[derive(Debug, Clone, PartialEq)]
pub enum ValidationError {
    /// `id` is not a UUIDv7; carries the id.
    InvalidId(String),
    /// `content` is empty.
    EmptyContent,
    /// `author` is empty.
    EmptyAuthor,
    /// `created_at` is not an RFC 3339 date-time; carries the timestamp.
    InvalidTimestamp(String),
    /// `confidence` is outside `[0.0, 1.0]`; carries its `f64` bit pattern.
    InvalidConfidence(u64),
    /// `assumptions` is present but empty.
    EmptyAssumptions,
    /// The assumption at this index is empty.
    EmptyAssumptionItem(usize),
    /// `references` is present but empty.
    EmptyReferences,
    /// The reference at this index has an id that is not a UUIDv7.
    InvalidReferenceId(usize, String),
    /// This extension field name does not match `x-<reverse-domain>.<name>`.
    InvalidExtensionFieldName(String),
    /// A limited unit has no audience or an empty one.
    AudienceRequiredForLimited,
    /// A public or network unit carries an audience.
    AudienceForbiddenForNonLimited,
    /// An audience is present but empty.
    EmptyAudience,
    /// The audience member at this index is empty.
    EmptyAudienceItem(usize),
    /// The proof's shape is invalid; carries the reason.
    InvalidProofShape(String),
}

/// The abstract value of a [`ValidationError`].
pub enum ValidationFailure {
    InvalidId(Seq<char>),
    EmptyContent,
    EmptyAuthor,
    InvalidTimestamp(Seq<char>),
    InvalidConfidence(u64),
    EmptyAssumptions,
    EmptyAssumptionItem(int),
    EmptyReferences,
    InvalidReferenceId(int, Seq<char>),
    InvalidExtensionFieldName(Seq<char>),
    AudienceRequiredForLimited,
    AudienceForbiddenForNonLimited,
    EmptyAudience,
    EmptyAudienceItem(int),
    InvalidProofShape(Seq<char>),
}

impl View for ValidationError {
    type V = ValidationFailure;

    open spec fn view(&self) -> ValidationFailure {
        match self {
            ValidationError::InvalidId(s) => ValidationFailure::InvalidId(s@),
            ValidationError::EmptyContent => ValidationFailure::EmptyContent,
            ValidationError::EmptyAuthor => ValidationFailure::EmptyAuthor,
            ValidationError::InvalidTimestamp(s) => ValidationFailure::InvalidTimestamp(s@),
            ValidationError::InvalidConfidence(b) => ValidationFailure::InvalidConfidence(*b),
            ValidationError::EmptyAssumptions => ValidationFailure::EmptyAssumptions,
            ValidationError::EmptyAssumptionItem(i) => ValidationFailure::EmptyAssumptionItem(
                *i as int,
            ),
            ValidationError::EmptyReferences => ValidationFailure::EmptyReferences,
            ValidationError::InvalidReferenceId(i, s) => ValidationFailure::InvalidReferenceId(
                *i as int,
                s@,
            ),
            ValidationError::InvalidExtensionFieldName(s) =>
                ValidationFailure::InvalidExtensionFieldName(s@),
            ValidationError::AudienceRequiredForLimited =>
                ValidationFailure::AudienceRequiredForLimited,
            ValidationError::AudienceForbiddenForNonLimited =>
                ValidationFailure::AudienceForbiddenForNonLimited,
            ValidationError::EmptyAudience => ValidationFailure::EmptyAudience,
            ValidationError::EmptyAudienceItem(i) => ValidationFailure::EmptyAudienceItem(
                *i as int,
            ),
            ValidationError::InvalidProofShape(s) => ValidationFailure::InvalidProofShape(s@),
        }
    }
}

// ---------------------------------------------------------------------------
// Helper specifications
// ---------------------------------------------------------------------------

/// `i` is the first index of `s` whose element satisfies `p`.
pub open spec fn is_first_where<A>(s: Seq<A>, p: spec_fn(A) -> bool, i: int) -> bool {
    &&& 0 <= i < s.len()
    &&& p(s[i])
    &&& forall|j: int| 0 <= j < i ==> !p(#[trigger] s[j])
}

/// The first index of `s` whose element satisfies `p`, if any.
pub open spec fn first_where<A>(s: Seq<A>, p: spec_fn(A) -> bool) -> Option<int> {
    if exists|i: int| is_first_where(s, p, i) {
        Some(choose|i: int| is_first_where(s, p, i))
    } else {
        None
    }
}

/// There is at most one first index.
pub proof fn lemma_first_where_unique<A>(s: Seq<A>, p: spec_fn(A) -> bool, i: int)
    requires
        is_first_where(s, p, i),
    ensures
        first_where(s, p) == Some(i),
{
    let k = choose|k: int| is_first_where(s, p, k);
    assert(is_first_where(s, p, k));
    if k < i {
        assert(!p(s[k]));
    }
    if i < k {
        assert(!p(s[i]));
    }
}

/// No element satisfies `p`, so there is no first index.
pub proof fn lemma_first_where_none<A>(s: Seq<A>, p: spec_fn(A) -> bool)
    requires
        forall|j: int| 0 <= j < s.len() ==> !p(#[trigger] s[j]),
    ensures
        first_where(s, p) is None,
{
}

/// The predicate "is empty" on texts.
pub open spec fn empty_text() -> spec_fn(Seq<char>) -> bool {
    |x: Seq<char>| x.len() == 0
}

/// The predicate "the referenced id is not a UUIDv7" on references.
pub open spec fn bad_reference() -> spec_fn((Seq<char>, crate::types::RelType)) -> bool {
    |x: (Seq<char>, crate::types::RelType)| !is_uuid_v7(x.0)
}

/// The predicate "the name is not a valid extension name" on extension fields.
pub open spec fn bad_extension() -> spec_fn((Seq<char>, Seq<char>)) -> bool {
    |x: (Seq<char>, Seq<char>)| !is_extension_name(x.0)
}

/// Whether `s` is the text of a version-7 UUID.
pub open spec fn is_uuid_v7(s: Seq<char>) -> bool {
    spec_uuid_version(s) == Some(7usize)
}

/// Whether `s` is an RFC 3339 date-time.
pub open spec fn is_rfc3339(s: Seq<char>) -> bool {
    spec_rfc3339_instant(s) is Some
}

/// The biased exponent field of an `f64` bit pattern.
pub open spec fn f64_exponent(bits: u64) -> u64 {
    (bits >> 52u64) & 0x7ffu64
}

/// The fraction field of an `f64` bit pattern.
pub open spec fn f64_fraction(bits: u64) -> u64 {
    bits & 0xf_ffff_ffff_ffffu64
}

/// The sign bit of an `f64` bit pattern.
pub open spec fn f64_negative(bits: u64) -> bool {
    (bits >> 63u64) == 1u64
}

/// Whether the `f64` with these bits is a NaN.
pub open spec fn f64_is_nan(bits: u64) -> bool {
    f64_exponent(bits) == 0x7ffu64 && f64_fraction(bits) != 0u64
}

/// Whether the `f64` with these bits is in `[0.0, 1.0]` under IEEE-754
/// comparison: not a NaN, not below zero (`-0.0` equals zero), not above
/// one (`1.0` has exponent `0x3ff` and fraction 0).
pub open spec fn f64_in_unit_interval(bits: u64) -> bool {
    &&& !f64_is_nan(bits)
    &&& (!f64_negative(bits) || (f64_exponent(bits) == 0u64 && f64_fraction(bits) == 0u64))
    &&& (f64_negative(bits) || f64_exponent(bits) < 0x3ffu64 || (f64_exponent(bits) == 0x3ffu64
        && f64_fraction(bits) == 0u64))
}

/// Checks the IEEE-754 range `0.0 <= c <= 1.0` on the bits of `c`.
pub fn confidence_in_range(bits: u64) -> (r: bool)
    ensures
        r == f64_in_unit_interval(bits),
{
    let r = bits <= 0x3ff0_0000_0000_0000u64 || bits == 0x8000_0000_0000_0000u64;
    proof {
        assert((bits <= 0x3ff0_0000_0000_0000u64 || bits == 0x8000_0000_0000_0000u64) == (
        !(((bits >> 52u64) & 0x7ffu64) == 0x7ffu64 && (bits & 0xf_ffff_ffff_ffffu64) != 0u64) && (
        !((bits >> 63u64) == 1u64) || (((bits >> 52u64) & 0x7ffu64) == 0u64 && (bits
            & 0xf_ffff_ffff_ffffu64) == 0u64)) && (((bits >> 63u64) == 1u64) || ((bits >> 52u64)
            & 0x7ffu64) < 0x3ffu64 || (((bits >> 52u64) & 0x7ffu64) == 0x3ffu64 && (bits
            & 0xf_ffff_ffff_ffffu64) == 0u64)))) by (bit_vector);
    }
    r
}

/// Lowercase ASCII letter or digit.
pub open spec fn is_lower_alnum(c: char) -> bool {
    ('a' <= c && c <= 'z') || ('0' <= c && c <= '9')
}

/// Whether `r` is two or more non-empty runs of `[a-z0-9]` joined by `.`.
pub open spec fn is_dotted_name(r: Seq<char>) -> bool {
    &&& forall|i: int| 0 <= i < r.len() ==> is_lower_alnum(#[trigger] r[i]) || r[i] == '.'
    &&& r.len() > 0
    &&& r[0] != '.'
    &&& r[r.len() - 1] != '.'
    &&& exists|i: int| 0 <= i < r.len() && #[trigger] r[i] == '.'
    &&& forall|i: int| 0 <= i < r.len() - 1 && #[trigger] r[i] == '.' ==> r[i + 1] != '.'
}

/// Whether `s` is a valid extension field name, that is, matches
/// `^x-[a-z0-9]+(\.[a-z0-9]+)+$`.
pub open spec fn is_extension_name(s: Seq<char>) -> bool {
    s.len() >= 2 && s[0] == 'x' && s[1] == '-' && is_dotted_name(s.skip(2))
}

/// The pattern that extension field names must match.
pub open spec fn extension_pattern() -> Seq<char> {
    "^x-[a-z0-9]+(\\.[a-z0-9]+)+$"@
}

/// Checks an extension field name against [`extension_pattern`] with the
/// `regex` crate.
pub fn valid_extension_name(name: &str) -> (r: bool)
    ensures
        r == is_extension_name(name@),
{
    match regex_is_match("^x-[a-z0-9]+(\\.[a-z0-9]+)+$", name) {
        Some(b) => b,
        None => false,
    }
}

/// The first rule of the specification that the unit `u` breaks, checked in
/// field order, or `None` when `u` is conformant.
pub open spec fn first_violation(u: UnitView) -> Option<ValidationFailure> {
    if !is_uuid_v7(u.id) {
        Some(ValidationFailure::InvalidId(u.id))
    } else if u.content.len() == 0 {
        Some(ValidationFailure::EmptyContent)
    } else if u.author.len() == 0 {
        Some(ValidationFailure::EmptyAuthor)
    } else if !is_rfc3339(u.created_at) {
        Some(ValidationFailure::InvalidTimestamp(u.created_at))
    } else if u.confidence matches Some(b) && !f64_in_unit_interval(b) {
        Some(ValidationFailure::InvalidConfidence(u.confidence->0))
    } else if u.assumptions matches Some(a) && a.len() == 0 {
        Some(ValidationFailure::EmptyAssumptions)
    } else if u.assumptions matches Some(a) && first_where(a, empty_text()) is Some {
        Some(
            ValidationFailure::EmptyAssumptionItem(
                first_where(u.assumptions->0, empty_text())->0,
            ),
        )
    } else if u.references matches Some(rs) && rs.len() == 0 {
        Some(ValidationFailure::EmptyReferences)
    } else if u.references matches Some(rs) && first_where(rs, bad_reference()) is Some {
        let rs = u.references->0;
        let i = first_where(rs, bad_reference())->0;
        Some(ValidationFailure::InvalidReferenceId(i, rs[i].0))
    } else if first_where(u.extensions, bad_extension()) is Some {
        let i = first_where(u.extensions, bad_extension())->0;
        Some(ValidationFailure::InvalidExtensionFieldName(u.extensions[i].0))
    } else if u.visibility == Some(Visibility::Limited) {
        match u.audience {
            None => Some(ValidationFailure::AudienceRequiredForLimited),
            Some(a) => if a.len() == 0 {
                Some(ValidationFailure::AudienceRequiredForLimited)
            } else if first_where(a, empty_text()) is Some {
                Some(
                    ValidationFailure::EmptyAudienceItem(
                        first_where(a, empty_text())->0,
                    ),
                )
            } else {
                proof_violation(u)
            },
        }
    } else if u.audience is Some {
        Some(ValidationFailure::AudienceForbiddenForNonLimited)
    } else {
        proof_violation(u)
    }
}

/// The reason given for a proof whose `created` text is not a date-time.
pub open spec fn bad_created_reason(created: Seq<char>) -> Seq<char> {
    "created "@ + crate::external::spec_str_debug(created) + " is not a valid ISO 8601 date-time"@
}

/// The rule a unit's proof breaks, if any: a non-empty method, an RFC 3339
/// `created`, and a `z`-prefixed value.
pub open spec fn proof_violation(u: UnitView) -> Option<ValidationFailure> {
    match u.proof {
        None => None,
        Some(p) => if p.0.len() == 0 {
            Some(ValidationFailure::InvalidProofShape("method must not be empty"@))
        } else if !is_rfc3339(p.1) {
            Some(ValidationFailure::InvalidProofShape(bad_created_reason(p.1)))
        } else if !(p.2.len() > 0 && p.2[0] == 'z') {
            Some(
                ValidationFailure::InvalidProofShape(
                    "value must start with 'z' (multibase base58btc prefix)"@,
                ),
            )
        } else {
            None
        },
    }
}

/// Whether `u` keeps every rule of the specification: a UUIDv7 id;
/// non-empty content and author; an RFC 3339 `created_at`; a confidence in
/// [0, 1]; assumptions, when given, a non-empty list of non-empty texts;
/// references, when given, a non-empty list whose every id is a UUIDv7;
/// every extension name valid; an audience, a non-empty list of non-empty
/// DIDs, exactly when the unit is `limited`; and a proof, when given, with a
/// non-empty method, an RFC 3339 `created` and a `z`-prefixed value.
pub open spec fn conforms(u: UnitView) -> bool {
    &&& is_uuid_v7(u.id)
    &&& u.content.len() > 0
    &&& u.author.len() > 0
    &&& is_rfc3339(u.created_at)
    &&& match u.confidence {
        Some(b) => f64_in_unit_interval(b),
        None => true,
    }
    &&& match u.assumptions {
        Some(a) => a.len() > 0 && forall|i: int| 0 <= i < a.len() ==> (#[trigger] a[i]).len() > 0,
        None => true,
    }
    &&& match u.references {
        Some(rs) => rs.len() > 0 && forall|i: int| 0 <= i < rs.len() ==> is_uuid_v7((#[trigger] rs[i]).0),
        None => true,
    }
    &&& forall|i: int| 0 <= i < u.extensions.len() ==> is_extension_name((#[trigger] u.extensions[i]).0)
    &&& if u.visibility == Some(Visibility::Limited) {
        match u.audience {
            Some(a) => a.len() > 0 && forall|i: int| 0 <= i < a.len() ==> (#[trigger] a[i]).len() > 0,
            None => false,
        }
    } else {
        u.audience is None
    }
    &&& match u.proof {
        Some(p) => p.0.len() > 0 && is_rfc3339(p.1) && p.2.len() > 0 && p.2[0] == 'z',
        None => true,
    }
}

/// When some element satisfies `p`, there is a first one.
pub proof fn lemma_first_where_some<A>(s: Seq<A>, p: spec_fn(A) -> bool, i: int)
    requires
        0 <= i < s.len(),
        p(s[i]),
    ensures
        first_where(s, p) is Some,
    decreases i,
{
    if forall|j: int| 0 <= j < i ==> !p(#[trigger] s[j]) {
        assert(is_first_where(s, p, i));
    } else {
        let j = choose|j: int| 0 <= j < i && p(#[trigger] s[j]);
        lemma_first_where_some(s, p, j);
    }
}

/// A first index exists exactly when some element satisfies `p`.
proof fn lemma_first_where_none_iff<A>(s: Seq<A>, p: spec_fn(A) -> bool)
    ensures
        first_where(s, p) is None <==> forall|j: int| 0 <= j < s.len() ==> !p(#[trigger] s[j]),
{
    if first_where(s, p) is None {
        assert forall|j: int| 0 <= j < s.len() implies !p(#[trigger] s[j]) by {
            if p(s[j]) {
                lemma_first_where_some(s, p, j);
            }
        }
    } else {
        let i = choose|i: int| is_first_where(s, p, i);
        assert(p(s[i]));
    }
}

/// A unit breaks no rule exactly when it keeps every rule.
#[verifier::spinoff_prover]
pub proof fn lemma_no_violation_iff_conforms(u: UnitView)
    ensures
        first_violation(u) is None <==> conforms(u),
{
    if let Some(a) = u.assumptions {
        lemma_first_where_none_iff(a, empty_text());
    }
    if let Some(rs) = u.references {
        lemma_first_where_none_iff(rs, bad_reference());
    }
    lemma_first_where_none_iff(u.extensions, bad_extension());
    if let Some(a) = u.audience {
        lemma_first_where_none_iff(a, empty_text());
    }
}

/// A unit made by [`SemanticUnit::new`](crate::types::SemanticUnit::new) (a
/// UUIDv7 id, an RFC 3339 timestamp, no optional field) is conformant
/// whenever its content and author are not empty.
pub proof fn lemma_new_unit_conformant(u: UnitView)
    requires
        is_uuid_v7(u.id),
        is_rfc3339(u.created_at),
        u.content.len() > 0,
        u.author.len() > 0,
        u.confidence is None,
        u.assumptions is None,
        u.source is None,
        u.references is None,
        u.visibility is None,
        u.audience is None,
        u.proof is None,
        u.extensions.len() == 0,
    ensures
        first_violation(u) is None,
{
    lemma_first_where_none(u.extensions, bad_extension());
}

// ---------------------------------------------------------------------------
// Checks
// ---------------------------------------------------------------------------

/// Whether `s` parses as a UUIDv7.
pub fn check_uuid_v7(s: &str) -> (r: bool)
    ensures
        r == is_uuid_v7(s@),
{
    match uuid_version(s) {
        Some(v) => v == 7,
        None => false,
    }
}

/// The first empty string in `v`, if any.
fn first_empty(v: &Vec<String>) -> (r: Option<usize>)
    ensures
        r matches Some(i) ==> first_where(strings_view(v@), empty_text()) == Some(
            i as int,
        ),
        r is None ==> first_where(strings_view(v@), empty_text()) is None,
{
    let ghost p = empty_text();
    let ghost sv = strings_view(v@);
    let mut i: usize = 0;
    while i < v.len()
        invariant
            i <= v@.len(),
            sv == strings_view(v@),
            p == empty_text(),
            forall|j: int| 0 <= j < i ==> !p(#[trigger] sv[j]),
        decreases v@.len() - i,
    {
        if v[i].as_str().is_empty() {
            proof {
                assert(is_first_where(sv, p, i as int));
                lemma_first_where_unique(sv, p, i as int);
            }
            return Some(i);
        }
        proof {
            assert(!p(sv[i as int]));
        }
        i = i + 1;
    }
    proof {
        lemma_first_where_none(sv, p);
    }
    None
}

/// Validates a unit against the normative specification.
///
/// Returns `Ok(())` when the unit is conformant, otherwise the first rule it
/// breaks, in field order.
#[verifier::loop_isolation(false)]
#[verifier::spinoff_prover]
pub fn validate_unit(unit: &SemanticUnit) -> (r: Result<(), ValidationError>)
    ensures
        match r {
            Ok(()) => first_violation(unit@) is None,
            Err(e) => first_violation(unit@) == Some(e@),
        },
        r is Ok <==> conforms(unit@),
{
    proof {
        lemma_no_violation_iff_conforms(unit@);
    }
    if !check_uuid_v7(unit.id.as_str()) {
        return Err(ValidationError::InvalidId(unit.id.clone()));
    }
    if unit.content.as_str().is_empty() {
        return Err(ValidationError::EmptyContent);
    }
    if unit.author.as_str().is_empty() {
        return Err(ValidationError::EmptyAuthor);
    }
    if rfc3339_instant(unit.created_at.as_str()).is_none() {
        return Err(ValidationError::InvalidTimestamp(unit.created_at.clone()));
    }
    if let Some(c) = unit.confidence {
        if !confidence_in_range(c) {
            return Err(ValidationError::InvalidConfidence(c));
        }
    }
    if let Some(assumptions) = &unit.assumptions {
        if assumptions.len() == 0 {
            return Err(ValidationError::EmptyAssumptions);
        }
        if let Some(i) = first_empty(assumptions) {
            return Err(ValidationError::EmptyAssumptionItem(i));
        }
    }
    if let Some(references) = &unit.references {
        if references.len() == 0 {
            return Err(ValidationError::EmptyReferences);
        }
        let ghost rs = crate::types::references_view(references@);
        let ghost p = bad_reference();
        let mut i: usize = 0;
        while i < references.len()
            invariant
                i <= references@.len(),
                rs == crate::types::references_view(references@),
                p == bad_reference(),
                forall|j: int| 0 <= j < i ==> !p(#[trigger] rs[j]),
            decreases references@.len() - i,
        {
            if !check_uuid_v7(references[i].id.as_str()) {
                proof {
                    assert(is_first_where(rs, p, i as int));
                    lemma_first_where_unique(rs, p, i as int);
                }
                return Err(ValidationError::InvalidReferenceId(i, references[i].id.clone()));
            }
            proof {
                assert(!p(rs[i as int]));
            }
            i = i + 1;
        }
        proof {
            lemma_first_where_none(rs, p);
        }
    }
    let ghost ex = unit.extensions@;
    let ghost pe = bad_extension();
    let mut k: usize = 0;
    while k < unit.extensions.len()
        invariant
            k <= ex.len(),
            ex == unit.extensions@,
            pe == bad_extension(),
            forall|j: int| 0 <= j < k ==> !pe(#[trigger] ex[j]),
        decreases ex.len() - k,
    {
        let (name, _value) = unit.extensions.entry(k);
        if !valid_extension_name(name.as_str()) {
            proof {
                assert(is_first_where(ex, pe, k as int));
                lemma_first_where_unique(ex, pe, k as int);
            }
            return Err(ValidationError::InvalidExtensionFieldName(name.clone()));
        }
        proof {
            assert(!pe(ex[k as int]));
        }
        k = k + 1;
    }
    proof {
        lemma_first_where_none(ex, pe);
    }
    match unit.visibility {
        Some(Visibility::Limited) => {
            match &unit.audience {
                None => {
                    return Err(ValidationError::AudienceRequiredForLimited);
                },
                Some(a) => {
                    if a.len() == 0 {
                        return Err(ValidationError::AudienceRequiredForLimited);
                    }
                    if let Some(i) = first_empty(a) {
                        return Err(ValidationError::EmptyAudienceItem(i));
                    }
                },
            }
        },
        _ => {
            if unit.audience.is_some() {
                return Err(ValidationError::AudienceForbiddenForNonLimited);
            }
        },
    }
    validate_proof_shape(unit)
}

/// Checks the shape (not the signature) of a unit's proof.
fn validate_proof_shape(unit: &SemanticUnit) -> (r: Result<(), ValidationError>)
    ensures
        match r {
            Ok(()) => proof_violation(unit@) is None,
            Err(e) => proof_violation(unit@) == Some(e@),
        },
{
    let attached = &unit.proof;
    match attached {
        None => Ok(()),
        Some(p) => {
            if p.method.as_str().is_empty() {
                proof {
                    reveal_strlit("method must not be empty");
                }
                return Err(
                    ValidationError::InvalidProofShape(to_owned_string("method must not be empty")),
                );
            }
            if rfc3339_instant(p.created.as_str()).is_none() {
                let mut msg = to_owned_string("created ");
                let d = crate::external::str_debug(p.created.as_str());
                push_str(&mut msg, d.as_str());
                push_str(&mut msg, " is not a valid ISO 8601 date-time");
                return Err(ValidationError::InvalidProofShape(msg));
            }
            let v = crate::text::chars_of(p.value.as_str());
            if !(v.len() > 0 && v[0] == 'z') {
                return Err(
                    ValidationError::InvalidProofShape(
                        to_owned_string("value must start with 'z' (multibase base58btc prefix)"),
                    ),
                );
            }
            Ok(())
        },
    }
}

} // verus!
