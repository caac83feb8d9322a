//! Request decisions of a node: how handlers answer, whom a caller may see,
//! how a listing is scoped, and the error each refusal carries.
//!
//! Handlers fetch from storage and hand what they fetched to these
//! functions; the functions decide the answer. Nothing here does I/O.
use vstd::prelude::*;
use vstd::std_specs::cmp::PartialEqSpecImpl;
use crate::api::{Capability, ErrorResponse, NodeInfo};
use crate::auth::{split_char, split_on};
use crate::storage::{StorageError, UnitFilter};
use crate::text::{
    chars_of, copy_string, push_str, str_contains, str_eq, to_owned_string, trim, trimmed_range,
    contains_text,
};
use crate::types::{
    effective_visibility, opt_strings_view, strings_view, SemanticUnit, UnitType, UnitView,
    Visibility,
};
use crate::validation::f64_is_nan;

verus! {

/// An error a handler answers with. Each variant carries the message of
/// the response body.
#[derive(Debug, Clone, PartialEq, Eq)]
pub enum AppError {
    /// The resource does not exist (404, `not_found`).
    NotFound(String),
    /// The request is malformed (400, `invalid_parameter`).
    BadRequest(String),
    /// The identifier is already taken (409, `id_conflict`).
    Conflict(String),
    /// The unit fails validation (422, `validation_failed`).
    UnprocessableEntity(String),
    /// A server-side failure (500, `internal_error`).
    Internal(String),
    /// The caller may not do this (403, `forbidden`).
    Forbidden(String),
    /// Authentication is missing or invalid (401, `unauthorized`).
    Unauthorized(String),
}

/// The HTTP status of an error.
pub open spec fn status_of(e: AppError) -> u16 {
    match e {
        AppError::NotFound(_) => 404,
        AppError::BadRequest(_) => 400,
        AppError::Conflict(_) => 409,
        AppError::UnprocessableEntity(_) => 422,
        AppError::Internal(_) => 500,
        AppError::Forbidden(_) => 403,
        AppError::Unauthorized(_) => 401,
    }
}

/// The machine-readable code of an error.
pub open spec fn code_of(e: AppError) -> Seq<char> {
    match e {
        AppError::NotFound(_) => "not_found"@,
        AppError::BadRequest(_) => "invalid_parameter"@,
        AppError::Conflict(_) => "id_conflict"@,
        AppError::UnprocessableEntity(_) => "validation_failed"@,
        AppError::Internal(_) => "internal_error"@,
        AppError::Forbidden(_) => "forbidden"@,
        AppError::Unauthorized(_) => "unauthorized"@,
    }
}

/// The message an error carries.
pub open spec fn message_of(e: AppError) -> Seq<char> {
    match e {
        AppError::NotFound(m) => m@,
        AppError::BadRequest(m) => m@,
        AppError::Conflict(m) => m@,
        AppError::UnprocessableEntity(m) => m@,
        AppError::Internal(m) => m@,
        AppError::Forbidden(m) => m@,
        AppError::Unauthorized(m) => m@,
    }
}

impl AppError {
    /// The HTTP status code.
    pub fn status(&self) -> (r: u16)
        ensures
            r == status_of(*self),
    {
        match self {
            AppError::NotFound(_) => 404,
            AppError::BadRequest(_) => 400,
            AppError::Conflict(_) => 409,
            AppError::UnprocessableEntity(_) => 422,
            AppError::Internal(_) => 500,
            AppError::Forbidden(_) => 403,
            AppError::Unauthorized(_) => 401,
        }
    }

    /// The machine-readable error code.
    pub fn code(&self) -> (r: &'static str)
        ensures
            r@ == code_of(*self),
    {
        proof {
            reveal_strlit("not_found");
            reveal_strlit("invalid_parameter");
            reveal_strlit("id_conflict");
            reveal_strlit("validation_failed");
            reveal_strlit("internal_error");
            reveal_strlit("forbidden");
            reveal_strlit("unauthorized");
        }
        match self {
            AppError::NotFound(_) => "not_found",
            AppError::BadRequest(_) => "invalid_parameter",
            AppError::Conflict(_) => "id_conflict",
            AppError::UnprocessableEntity(_) => "validation_failed",
            AppError::Internal(_) => "internal_error",
            AppError::Forbidden(_) => "forbidden",
            AppError::Unauthorized(_) => "unauthorized",
        }
    }

    /// The message carried.
    pub fn message(&self) -> (r: &String)
        ensures
            r@ == message_of(*self),
    {
        match self {
            AppError::NotFound(m) => m,
            AppError::BadRequest(m) => m,
            AppError::Conflict(m) => m,
            AppError::UnprocessableEntity(m) => m,
            AppError::Internal(m) => m,
            AppError::Forbidden(m) => m,
            AppError::Unauthorized(m) => m,
        }
    }

    /// The status and JSON body of the response for this error.
    pub fn to_response(&self) -> (r: (u16, ErrorResponse))
        ensures
            r.0 == status_of(*self),
            r.1.code@ == code_of(*self),
            r.1.error@ == message_of(*self),
    {
        (self.status(), ErrorResponse::new(self.code(), self.message().as_str()))
    }

    /// The error a storage failure is answered with: a missing record is
    /// `NotFound("not found")`, a conflict or an internal failure keeps its
    /// message.
    pub fn from_storage(e: StorageError) -> (r: AppError)
        ensures
            match e {
                StorageError::NotFound => r matches AppError::NotFound(m) && m@ == "not found"@,
                StorageError::Conflict(m) => r == AppError::Conflict(m),
                StorageError::Internal(m) => r == AppError::Internal(m),
            },
    {
        match e {
            StorageError::NotFound => {
                proof {
                    reveal_strlit("not found");
                }
                AppError::NotFound(to_owned_string("not found"))
            },
            StorageError::Conflict(m) => AppError::Conflict(m),
            StorageError::Internal(m) => AppError::Internal(m),
        }
    }
}

/// `prefix`, then `id`, then `suffix`.
pub open spec fn framed(prefix: Seq<char>, id: Seq<char>, suffix: Seq<char>) -> Seq<char> {
    prefix + id + suffix
}

/// The text `prefix` + `id` + `suffix`.
pub fn framed_text(prefix: &str, id: &str, suffix: &str) -> (r: String)
    ensures
        r@ == framed(prefix@, id@, suffix@),
{
    let mut r = to_owned_string(prefix);
    push_str(&mut r, id);
    push_str(&mut r, suffix);
    r
}

/// The message of a unit that the caller may not see or that is absent.
pub open spec fn unit_not_found(id: Seq<char>) -> Seq<char> {
    framed("unit "@, id, " not found"@)
}

/// The message of an agent that is not registered here.
pub open spec fn agent_not_found(did: Seq<char>) -> Seq<char> {
    framed("agent "@, did, " not found"@)
}

/// `NotFound("unit {id} not found")`.
pub fn unit_not_found_error(id: &str) -> (r: AppError)
    ensures
        r matches AppError::NotFound(m) && m@ == unit_not_found(id@),
{
    AppError::NotFound(framed_text("unit ", id, " not found"))
}

/// `NotFound("agent {did} not found")`.
pub fn agent_not_found_error(did: &str) -> (r: AppError)
    ensures
        r matches AppError::NotFound(m) && m@ == agent_not_found(did@),
{
    AppError::NotFound(framed_text("agent ", did, " not found"))
}

// ---------------------------------------------------------------------------
// Submission
// ---------------------------------------------------------------------------

/// Whether a caller may submit `u`: public units need nothing, other units
/// need the caller to be authenticated as the unit's author.
pub open spec fn submission_refusal(u: UnitView, caller: Option<Seq<char>>) -> Option<
    (u16, Seq<char>),
> {
    if effective_visibility(u.visibility) == Visibility::Public {
        None
    } else {
        match caller {
            None => Some((401, "authentication required for non-public units"@)),
            Some(c) => if c == u.author {
                None
            } else {
                Some((403, "you may only submit units authored by your own DID"@))
            },
        }
    }
}

/// The optional text's view.
pub open spec fn opt_str(o: Option<&str>) -> Option<Seq<char>> {
    match o {
        Some(s) => Some(s@),
        None => None,
    }
}

/// Checks that `caller` may submit `unit`.
pub fn authorize_submission(unit: &SemanticUnit, caller: Option<&str>) -> (r: Result<
    (),
    AppError,
>)
    ensures
        match submission_refusal(unit@, opt_str(caller)) {
            None => r is Ok,
            Some((status, msg)) => r matches Err(e) && status_of(e) == status && message_of(e)
                == msg,
        },
{
    let public = match unit.visibility {
        None => true,
        Some(Visibility::Public) => true,
        Some(_) => false,
    };
    if public {
        return Ok(());
    }
    proof {
        reveal_strlit("authentication required for non-public units");
        reveal_strlit("you may only submit units authored by your own DID");
    }
    match caller {
        None => Err(
            AppError::Unauthorized(to_owned_string("authentication required for non-public units")),
        ),
        Some(c) => if str_eq(c, unit.author.as_str()) {
            Ok(())
        } else {
            Err(
                AppError::Forbidden(
                    to_owned_string("you may only submit units authored by your own DID"),
                ),
            )
        },
    }
}

/// Whether the `f64` with these bits is a zero of either sign.
pub open spec fn f64_is_zero(bits: u64) -> bool {
    bits & 0x7fff_ffff_ffff_ffffu64 == 0u64
}

/// IEEE-754 equality of two `f64` bit patterns: neither is a NaN, and the
/// bits are equal or both are zeros.
pub open spec fn f64_equal(a: u64, b: u64) -> bool {
    !f64_is_nan(a) && !f64_is_nan(b) && (a == b || (f64_is_zero(a) && f64_is_zero(b)))
}

/// Equality of two optional confidences as `Option<f64>` compares them.
pub open spec fn confidence_equal(a: Option<u64>, b: Option<u64>) -> bool {
    match (a, b) {
        (None, None) => true,
        (Some(x), Some(y)) => f64_equal(x, y),
        _ => false,
    }
}

/// Whether two units are equal field by field: confidences compared as
/// floats, extension fields compared as maps.
pub open spec fn units_match(a: UnitView, b: UnitView) -> bool {
    &&& a.id == b.id
    &&& a.unit_type == b.unit_type
    &&& a.content == b.content
    &&& a.created_at == b.created_at
    &&& a.author == b.author
    &&& confidence_equal(a.confidence, b.confidence)
    &&& a.assumptions == b.assumptions
    &&& a.source == b.source
    &&& a.references == b.references
    &&& a.visibility == b.visibility
    &&& a.audience == b.audience
    &&& a.proof == b.proof
    &&& a.extensions.len() == b.extensions.len()
    &&& forall|i: int| 0 <= i < a.extensions.len() ==> b.extensions.contains(#[trigger] a.extensions[i])
}

/// IEEE-754 equality on `f64` bit patterns.
pub fn f64_bits_equal(a: u64, b: u64) -> (r: bool)
    ensures
        r == f64_equal(a, b),
{
    let a_nan = (a >> 52u64) & 0x7ffu64 == 0x7ffu64 && a & 0xf_ffff_ffff_ffffu64 != 0u64;
    let b_nan = (b >> 52u64) & 0x7ffu64 == 0x7ffu64 && b & 0xf_ffff_ffff_ffffu64 != 0u64;
    !a_nan && !b_nan && (a == b || (a & 0x7fff_ffff_ffff_ffffu64 == 0u64 && b
        & 0x7fff_ffff_ffff_ffffu64 == 0u64))
}

/// Whether two optional text lists are equal.
#[verifier::loop_isolation(false)]
fn opt_strings_equal(a: &Option<Vec<String>>, b: &Option<Vec<String>>) -> (r: bool)
    ensures
        r == (opt_strings_view(*a) == opt_strings_view(*b)),
{
    match (a, b) {
        (None, None) => true,
        (Some(x), Some(y)) => {
            if x.len() != y.len() {
                proof {
                    assert(strings_view(x@).len() != strings_view(y@).len());
                }
                return false;
            }
            let mut i: usize = 0;
            while i < x.len()
                invariant
                    i <= x@.len(),
                    x@.len() == y@.len(),
                    forall|k: int| 0 <= k < i ==> x@[k]@ == y@[k]@,
                decreases x@.len() - i,
            {
                if !str_eq(x[i].as_str(), y[i].as_str()) {
                    proof {
                        assert(strings_view(x@)[i as int] != strings_view(y@)[i as int]);
                    }
                    return false;
                }
                i = i + 1;
            }
            proof {
                assert(strings_view(x@) =~= strings_view(y@));
            }
            true
        },
        _ => false,
    }
}

/// Whether two optional texts are equal.
fn opt_str_equal(a: &Option<String>, b: &Option<String>) -> (r: bool)
    ensures
        r == (crate::types::opt_view(*a) == crate::types::opt_view(*b)),
{
    match (a, b) {
        (None, None) => true,
        (Some(x), Some(y)) => str_eq(x.as_str(), y.as_str()),
        _ => false,
    }
}

/// Whether two units are equal as the node compares a resubmission with
/// the stored unit.
#[verifier::spinoff_prover]
pub fn units_equal(a: &SemanticUnit, b: &SemanticUnit) -> (r: bool)
    ensures
        r == units_match(a@, b@),
        r ==> (UnitView { confidence: b@.confidence, extensions: b@.extensions, ..a@ }) == b@,
{
    proof {
        if units_match(a@, b@) {
            lemma_matching_units_are_same(a@, b@);
        }
    }
    if !str_eq(a.id.as_str(), b.id.as_str()) || a.unit_type != b.unit_type || !str_eq(
        a.content.as_str(),
        b.content.as_str(),
    ) || !str_eq(a.created_at.as_str(), b.created_at.as_str()) || !str_eq(
        a.author.as_str(),
        b.author.as_str(),
    ) {
        return false;
    }
    let conf = match (a.confidence, b.confidence) {
        (None, None) => true,
        (Some(x), Some(y)) => f64_bits_equal(x, y),
        _ => false,
    };
    if !conf || !opt_strings_equal(&a.assumptions, &b.assumptions) {
        return false;
    }
    let src = match (&a.source, &b.source) {
        (None, None) => true,
        (Some(crate::types::Source::Uri(x)), Some(crate::types::Source::Uri(y))) => str_eq(
            x.as_str(),
            y.as_str(),
        ),
        (
            Some(crate::types::Source::Labeled { label: l1, uri: u1 }),
            Some(crate::types::Source::Labeled { label: l2, uri: u2 }),
        ) => str_eq(l1.as_str(), l2.as_str()) && opt_str_equal(u1, u2),
        _ => false,
    };
    if !src {
        return false;
    }
    let refs = match (&a.references, &b.references) {
        (None, None) => true,
        (Some(x), Some(y)) => references_equal(x, y),
        _ => false,
    };
    if !refs {
        return false;
    }
    let vis = match (a.visibility, b.visibility) {
        (None, None) => true,
        (Some(x), Some(y)) => x == y,
        _ => false,
    };
    if !vis || !opt_strings_equal(&a.audience, &b.audience) {
        return false;
    }
    let prf = match (&a.proof, &b.proof) {
        (None, None) => true,
        (Some(x), Some(y)) => str_eq(x.method.as_str(), y.method.as_str()) && str_eq(
            x.created.as_str(),
            y.created.as_str(),
        ) && str_eq(x.value.as_str(), y.value.as_str()),
        _ => false,
    };
    if !prf {
        return false;
    }
    a.extensions.same_entries(&b.extensions)
}

impl PartialEq for SemanticUnit {
    fn eq(&self, other: &Self) -> (r: bool) {
        units_equal(self, other)
    }
}

impl PartialEqSpecImpl for SemanticUnit {
    open spec fn obeys_eq_spec() -> bool {
        true
    }

    open spec fn eq_spec(&self, other: &SemanticUnit) -> bool {
        units_match(self@, other@)
    }
}

/// Whether two reference lists are equal.
fn references_equal(x: &Vec<crate::types::Reference>, y: &Vec<crate::types::Reference>) -> (r:
    bool)
    ensures
        r == (crate::types::references_view(x@) == crate::types::references_view(y@)),
{
    if x.len() != y.len() {
        proof {
            assert(crate::types::references_view(x@).len() != crate::types::references_view(
                y@,
            ).len());
        }
        return false;
    }
    let mut i: usize = 0;
    while i < x.len()
        invariant
            i <= x@.len(),
            x@.len() == y@.len(),
            forall|k: int|
                0 <= k < i ==> crate::types::reference_view(x@[k]) == crate::types::reference_view(
                    y@[k],
                ),
        decreases x@.len() - i,
    {
        if !str_eq(x[i].id.as_str(), y[i].id.as_str()) || x[i].rel != y[i].rel {
            proof {
                assert(crate::types::references_view(x@)[i as int]
                    != crate::types::references_view(y@)[i as int]);
            }
            return false;
        }
        i = i + 1;
    }
    proof {
        assert(crate::types::references_view(x@) =~= crate::types::references_view(y@));
    }
    true
}

/// The message of a resubmission whose content differs from the stored
/// unit.
pub open spec fn conflict_message(id: Seq<char>) -> Seq<char> {
    framed("unit "@, id, " already exists with different content"@)
}

/// Answers a submission that storage refused as a duplicate, given what
/// storage holds under its id: the stored unit when it equals the
/// submission (an idempotent resubmission, answered 200), otherwise a
/// conflict.
#[verifier::spinoff_prover]
pub fn resolve_duplicate(existing: Option<SemanticUnit>, submitted: &SemanticUnit) -> (r: Result<
    SemanticUnit,
    AppError,
>)
    ensures
        match existing {
            None => r matches Err(AppError::Internal(m)) && m@
                == "conflict on put_unit but unit not found"@,
            Some(e) => if units_match(e@, submitted@) {
                r matches Ok(u) && u@ == e@
            } else {
                r matches Err(AppError::Conflict(m)) && m@ == conflict_message(submitted@.id)
            },
        },
        r matches Ok(u) ==> (UnitView {
            confidence: submitted@.confidence,
            extensions: submitted@.extensions,
            ..u@
        }) == submitted@,
{
    proof {
        if existing is Some && units_match(existing->0@, submitted@) {
            lemma_matching_units_are_same(existing->0@, submitted@);
        }
    }
    match existing {
        None => {
            proof {
                reveal_strlit("conflict on put_unit but unit not found");
            }
            Err(AppError::Internal(to_owned_string("conflict on put_unit but unit not found")))
        },
        Some(e) => {
            if units_equal(&e, submitted) {
                Ok(e)
            } else {
                Err(
                    AppError::Conflict(
                        framed_text(
                            "unit ",
                            submitted.id.as_str(),
                            " already exists with different content",
                        ),
                    ),
                )
            }
        },
    }
}

// ---------------------------------------------------------------------------
// Reading
// ---------------------------------------------------------------------------

/// Whether `caller` may read `u`, where `follows` says whether the caller
/// follows the unit's author: public units are open to all, network units
/// to authenticated followers, limited units to their audience.
pub open spec fn may_read(u: UnitView, caller: Option<Seq<char>>, follows: bool) -> bool {
    match effective_visibility(u.visibility) {
        Visibility::Public => true,
        Visibility::Network => caller is Some && follows,
        Visibility::Limited => match caller {
            Some(c) => match u.audience {
                Some(a) => a.contains(c),
                None => false,
            },
            None => false,
        },
    }
}

/// Whether `v` holds `c`.
pub fn contains_string(v: &Vec<String>, c: &str) -> (r: bool)
    ensures
        r == strings_view(v@).contains(c@),
{
    let mut i: usize = 0;
    while i < v.len()
        invariant
            i <= v@.len(),
            forall|k: int| 0 <= k < i ==> v@[k]@ != c@,
        decreases v@.len() - i,
    {
        if str_eq(v[i].as_str(), c) {
            proof {
                assert(strings_view(v@)[i as int] == c@);
            }
            return true;
        }
        i = i + 1;
    }
    proof {
        if strings_view(v@).contains(c@) {
            let k = choose|k: int| 0 <= k < strings_view(v@).len() && strings_view(v@)[k] == c@;
            assert(v@[k]@ == c@);
        }
    }
    false
}

/// Answers a read of `unit` (fetched under `id`) by `caller`: the unit, or
/// `NotFound` as for an absent unit when the caller may not see it.
pub fn read_access(unit: SemanticUnit, id: &str, caller: Option<&str>, follows: bool) -> (r:
    Result<SemanticUnit, AppError>)
    ensures
        may_read(unit@, opt_str(caller), follows) ==> (r matches Ok(u) && u@ == unit@),
        !may_read(unit@, opt_str(caller), follows) ==> (r matches Err(AppError::NotFound(m)) && m@
            == unit_not_found(id@)),
{
    let vis = match unit.visibility {
        Some(v) => v,
        None => Visibility::Public,
    };
    let allowed = match vis {
        Visibility::Public => true,
        Visibility::Network => caller.is_some() && follows,
        Visibility::Limited => match caller {
            Some(c) => match &unit.audience {
                Some(a) => contains_string(a, c),
                None => false,
            },
            None => false,
        },
    };
    if allowed {
        Ok(unit)
    } else {
        Err(unit_not_found_error(id))
    }
}

// ---------------------------------------------------------------------------
// Listing and sync
// ---------------------------------------------------------------------------

/// Query parameters of `GET /v1/units` and `GET /v1/sync`.
#[derive(Debug, Clone, PartialEq, Eq)]
pub struct UnitQueryParams {
    /// Comma-separated unit type names.
    pub unit_type: Option<String>,
    /// Exact author.
    pub author: Option<String>,
    /// Lower bound on `created_at`.
    pub since: Option<String>,
    /// Keyset pagination cursor.
    pub after: Option<String>,
    /// Page size (1 to 500, default 50).
    pub limit: Option<u32>,
}

impl Default for UnitQueryParams {
    fn default() -> (r: UnitQueryParams)
        ensures
            r.unit_type is None,
            r.author is None,
            r.since is None,
            r.after is None,
            r.limit is None,
    {
        UnitQueryParams { unit_type: None, author: None, since: None, after: None, limit: None }
    }
}

/// The unit type whose wire name is `s`.
pub open spec fn type_named(s: Seq<char>) -> Option<UnitType> {
    if s == "assertion"@ {
        Some(UnitType::Assertion)
    } else if s == "question"@ {
        Some(UnitType::Question)
    } else if s == "inference"@ {
        Some(UnitType::Inference)
    } else if s == "challenge"@ {
        Some(UnitType::Challenge)
    } else if s == "constraint"@ {
        Some(UnitType::Constraint)
    } else {
        None
    }
}

/// The types named by the pieces of a comma-separated list: each non-empty
/// piece, trimmed, that is a type name, in order; other pieces are skipped.
pub open spec fn named_types(pieces: Seq<Seq<char>>) -> Seq<UnitType>
    decreases pieces.len(),
{
    if pieces.len() == 0 {
        Seq::empty()
    } else {
        let rest = named_types(pieces.drop_last());
        let p = pieces.last();
        if p.len() == 0 {
            rest
        } else {
            match type_named(trim(p)) {
                Some(t) => rest.push(t),
                None => rest,
            }
        }
    }
}

/// The type list of the `type` parameter (absent means no restriction).
pub open spec fn param_types(p: Option<String>) -> Seq<UnitType> {
    match p {
        Some(s) => named_types(split_on(s@, ',')),
        None => named_types(split_on(Seq::empty(), ',')),
    }
}

/// The page size of a listing: `limit` clamped to `[1, 500]`, 50 when
/// absent.
pub open spec fn listing_limit(limit: Option<u32>) -> u32 {
    match limit {
        Some(l) => crate::api::clamp(l, 1, 500),
        None => 50,
    }
}

/// The type named by the trimmed text `s`.
pub fn parse_type(s: &str) -> (r: Option<UnitType>)
    ensures
        r == type_named(s@),
{
    proof {
        reveal_strlit("assertion");
        reveal_strlit("question");
        reveal_strlit("inference");
        reveal_strlit("challenge");
        reveal_strlit("constraint");
        assert("assertion"@[0] == 'a' && "question"@[0] == 'q' && "inference"@[0] == 'i'
            && "challenge"@[0] == 'c' && "constraint"@[1] == 'o' && "challenge"@[1] == 'h');
    }
    let r = UnitType::from_name(s);
    proof {
        if r is None {
            assert(UnitType::Assertion.name() != s@);
            assert(UnitType::Question.name() != s@);
            assert(UnitType::Inference.name() != s@);
            assert(UnitType::Challenge.name() != s@);
            assert(UnitType::Constraint.name() != s@);
        }
    }
    r
}

/// The unit types named in the comma-separated list `list`.
pub fn parse_type_list(list: &str) -> (r: Vec<UnitType>)
    ensures
        r@ == named_types(split_on(list@, ',')),
{
    let pieces = split_char(list, ',');
    let ghost ps = split_on(list@, ',');
    let mut out: Vec<UnitType> = Vec::new();
    let mut i: usize = 0;
    while i < pieces.len()
        invariant
            i <= pieces@.len(),
            pieces@.map_values(|x: String| x@) == ps,
            out@ == named_types(ps.take(i as int)),
        decreases pieces@.len() - i,
    {
        proof {
            assert(ps.take(i as int + 1).drop_last() =~= ps.take(i as int));
            assert(ps.take(i as int + 1).last() == pieces@[i as int]@);
        }
        let piece = &pieces[i];
        if !piece.as_str().is_empty() {
            let v = chars_of(piece.as_str());
            let t = trimmed_range(&v, 0, v.len());
            proof {
                assert(v@.subrange(0, v@.len() as int) =~= piece@);
            }
            match parse_type(t.as_str()) {
                Some(ty) => out.push(ty),
                None => {},
            }
        } else {
            proof {
                assert(piece@.len() == 0);
            }
        }
        i = i + 1;
    }
    proof {
        assert(ps.take(pieces@.len() as int) =~= ps);
    }
    out
}

/// The page size: `limit` clamped to `[1, 500]`, 50 when absent.
pub fn page_limit(limit: Option<u32>) -> (r: u32)
    ensures
        r == listing_limit(limit),
{
    match limit {
        Some(l) => if l < 1 {
            1
        } else if l > 500 {
            500
        } else {
            l
        },
        None => 50,
    }
}

/// The filter for query `params` restricted to `visibilities`.
pub fn build_filter(params: UnitQueryParams, visibilities: Vec<Visibility>) -> (r: UnitFilter)
    ensures
        r.unit_types@ == param_types(params.unit_type),
        r.author == params.author,
        r.since == params.since,
        r.after == params.after,
        r.limit == listing_limit(params.limit),
        r.visibilities@ == visibilities@,
        r.network_for_authors@.len() == 0,
{
    let limit = page_limit(params.limit);
    let unit_types = match &params.unit_type {
        Some(s) => parse_type_list(s.as_str()),
        None => {
            proof {
                reveal_strlit("");
            }
            parse_type_list("")
        },
    };
    UnitFilter {
        unit_types,
        author: params.author,
        since: params.since,
        after: params.after,
        limit,
        visibilities,
        network_for_authors: Vec::new(),
    }
}

/// Whether a caller may see network units in a listing: it is
/// authenticated and follows someone.
pub open spec fn sees_network(caller: Option<Seq<char>>, following: Seq<String>) -> bool {
    caller is Some && following.len() > 0
}

/// The filter of `GET /v1/units` for `caller`, who follows `following`:
/// public units for everyone, and network units of the followed authors
/// for an authenticated caller who follows someone.
pub fn listing_filter(params: UnitQueryParams, caller: Option<&str>, following: Vec<String>) -> (r:
    UnitFilter)
    ensures
        r.unit_types@ == param_types(params.unit_type),
        r.author == params.author,
        r.since == params.since,
        r.after == params.after,
        r.limit == listing_limit(params.limit),
        sees_network(opt_str(caller), following@) ==> r.visibilities@ == seq![
            Visibility::Public,
            Visibility::Network,
        ] && r.network_for_authors@ == following@,
        !sees_network(opt_str(caller), following@) ==> r.visibilities@ == seq![Visibility::Public]
            && r.network_for_authors@.len() == 0,
{
    let mut visibilities: Vec<Visibility> = Vec::new();
    visibilities.push(Visibility::Public);
    if caller.is_some() && following.len() > 0 {
        visibilities.push(Visibility::Network);
        let mut f = build_filter(params, visibilities);
        f.network_for_authors = following;
        f
    } else {
        build_filter(params, visibilities)
    }
}

/// The filter of `GET /v1/sync`: public units only; when the query has no
/// `after`, the `Last-Event-ID` header is the cursor.
pub fn sync_filter(params: UnitQueryParams, last_event_id: Option<String>) -> (r: UnitFilter)
    ensures
        r.unit_types@ == param_types(params.unit_type),
        r.author == params.author,
        r.since == params.since,
        r.after == (if params.after is Some {
            params.after
        } else {
            last_event_id
        }),
        r.limit == listing_limit(params.limit),
        r.visibilities@ == seq![Visibility::Public],
        r.network_for_authors@.len() == 0,
{
    let mut p = params;
    if p.after.is_none() {
        p.after = last_event_id;
    }
    let mut visibilities: Vec<Visibility> = Vec::new();
    visibilities.push(Visibility::Public);
    build_filter(p, visibilities)
}

/// Whether the `Accept` header asks for a server-sent event stream.
pub fn wants_event_stream(accept: Option<&str>) -> (r: bool)
    ensures
        r == match accept {
            Some(a) => contains_text(a@, "text/event-stream"@),
            None => false,
        },
{
    match accept {
        Some(a) => str_contains(a, "text/event-stream"),
        None => false,
    }
}

// ---------------------------------------------------------------------------
// Subgraph
// ---------------------------------------------------------------------------

/// The traversal depth of a subgraph request: 10 by default, at most 50.
pub open spec fn depth_of(depth: Option<u32>) -> u32 {
    let d = match depth {
        Some(d) => d,
        None => 10,
    };
    if d < 50 {
        d
    } else {
        50
    }
}

/// The traversal depth of a subgraph request.
pub fn subgraph_depth(depth: Option<u32>) -> (r: u32)
    ensures
        r == depth_of(depth),
{
    let d = match depth {
        Some(d) => d,
        None => 10,
    };
    if d < 50 {
        d
    } else {
        50
    }
}

/// The root of a subgraph request: only a public unit may be a root; any
/// other is answered as absent.
pub fn subgraph_root(root: SemanticUnit, id: &str) -> (r: Result<SemanticUnit, AppError>)
    ensures
        effective_visibility(root@.visibility) == Visibility::Public ==> (r matches Ok(u) && u@
            == root@),
        effective_visibility(root@.visibility) != Visibility::Public ==> (r matches Err(
            AppError::NotFound(m),
        ) && m@ == unit_not_found(id@)),
{
    let public = match root.visibility {
        None => true,
        Some(Visibility::Public) => true,
        Some(_) => false,
    };
    if public {
        Ok(root)
    } else {
        Err(unit_not_found_error(id))
    }
}

/// A fetch of the unit `id` is refused with `BadRequest` when `id` is not a
/// UUID, so that a malformed request is told apart from a missing unit.
pub fn check_unit_id(id: &str) -> (r: Result<(), AppError>)
    ensures
        crate::external::spec_uuid_version(id@) is Some ==> r is Ok,
        crate::external::spec_uuid_version(id@) is None ==> (r matches Err(AppError::BadRequest(m))
            && m@ == framed("unit id "@, id@, " is not a valid UUID"@)),
{
    match crate::external::uuid_version(id) {
        Some(_) => Ok(()),
        None => Err(AppError::BadRequest(framed_text("unit id ", id, " is not a valid UUID"))),
    }
}

/// One hop of a subgraph walk takes in a unit found around the frontier:
/// a public unit not yet in `graph` is added and queued in `next`; any
/// other unit is left out, so non-public units are neither returned nor
/// walked through. Returns whether the unit was taken in.
pub fn take_in_public(graph: &mut crate::graph::Graph, next: &mut Vec<String>, unit: SemanticUnit) -> (r:
    bool)
    ensures
        r == (effective_visibility(unit@.visibility) == Visibility::Public && !crate::graph::has_id(
            old(graph)@,
            unit@.id,
        )),
        r ==> final(graph)@ == old(graph)@.push(unit@) && final(next)@.map_values(|s: String| s@)
            == old(next)@.map_values(|s: String| s@).push(unit@.id),
        !r ==> final(graph)@ == old(graph)@ && final(next)@ == old(next)@,
{
    let public = match unit.visibility {
        None => true,
        Some(Visibility::Public) => true,
        Some(_) => false,
    };
    if public {
        graph.absorb(next, unit)
    } else {
        false
    }
}

// ---------------------------------------------------------------------------
// Discovery
// ---------------------------------------------------------------------------

/// The capabilities this node advertises.
pub open spec fn node_capabilities() -> Seq<Capability> {
    seq![
        Capability::Sync,
        Capability::Sse,
        Capability::Subgraph,
        Capability::Peers,
        Capability::Agents,
        Capability::Follows,
    ]
}

/// The discovery document of this node.
pub fn discovery_document(
    node_id: &str,
    api_base: &str,
    name: Option<String>,
    contact: Option<String>,
    public_key: Option<String>,
) -> (r: NodeInfo)
    ensures
        r.node_id@ == node_id@,
        r.api_base@ == api_base@,
        r.name == name,
        r.contact == contact,
        r.public_key == public_key,
        r.protocol_version@ == "1.0"@,
        r.capabilities@ == node_capabilities(),
        !r.signing_required,
        r.pow_required is None,
{
    let mut info = NodeInfo::new(node_id, api_base);
    info.name = name;
    info.contact = contact;
    info.public_key = public_key;
    let mut caps: Vec<Capability> = Vec::new();
    caps.push(Capability::Sync);
    caps.push(Capability::Sse);
    caps.push(Capability::Subgraph);
    caps.push(Capability::Peers);
    caps.push(Capability::Agents);
    caps.push(Capability::Follows);
    info.capabilities = caps;
    info
}

// ---------------------------------------------------------------------------
// Laws
// ---------------------------------------------------------------------------

/// Resubmitting exactly the unit that storage holds is idempotent: the
/// duplicate is answered with the stored unit, for every unit whose
/// confidence is not a NaN (validation refuses those).
pub proof fn lemma_resubmission_idempotent(u: UnitView)
    requires
        u.confidence matches Some(c) ==> !f64_is_nan(c),
    ensures
        units_match(u, u),
{
    assert forall|i: int| 0 <= i < u.extensions.len() implies u.extensions.contains(
        #[trigger] u.extensions[i],
    ) by {}
}

/// Units that match are the same unit: every field is equal, except that
/// the confidences need only be equal as floats (`0.0` and `-0.0` alike,
/// neither a NaN) and the extension fields of one are those of the other,
/// as many and in any order.
pub proof fn lemma_matching_units_are_same(a: UnitView, b: UnitView)
    requires
        units_match(a, b),
    ensures
        (UnitView { confidence: b.confidence, extensions: b.extensions, ..a }) == b,
        match (a.confidence, b.confidence) {
            (None, None) => true,
            (Some(x), Some(y)) => !f64_is_nan(x) && !f64_is_nan(y) && (x == y || (f64_is_zero(x)
                && f64_is_zero(y))),
            _ => false,
        },
        a.extensions.len() == b.extensions.len(),
        forall|i: int| 0 <= i < a.extensions.len() ==> b.extensions.contains(#[trigger] a.extensions[i]),
{
}

/// Whoever is not authenticated reads public units only, and lists public
/// units only.
pub proof fn lemma_anonymous_sees_public_only(u: UnitView, follows: bool, following: Seq<String>)
    ensures
        may_read(u, None, follows) <==> effective_visibility(u.visibility) == Visibility::Public,
        !sees_network(None, following),
{
}

/// A limited unit is readable exactly by the members of its audience.
pub proof fn lemma_limited_reads_need_audience(u: UnitView, caller: Seq<char>, follows: bool)
    requires
        effective_visibility(u.visibility) == Visibility::Limited,
    ensures
        may_read(u, Some(caller), follows) <==> (u.audience matches Some(a) && a.contains(caller)),
{
}

/// A listing never shows a limited unit, and shows a network unit only to
/// an authenticated caller who follows its author: for every filter that
/// [`listing_filter`] can return, every unit it accepts is public or such a
/// network unit.
pub proof fn lemma_listing_visibility(
    f: UnitFilter,
    caller: Option<Seq<char>>,
    following: Seq<String>,
    u: UnitView,
)
    requires
        sees_network(caller, following) ==> f.visibilities@ == seq![
            Visibility::Public,
            Visibility::Network,
        ] && f.network_for_authors@ == following,
        !sees_network(caller, following) ==> f.visibilities@ == seq![Visibility::Public]
            && f.network_for_authors@.len() == 0,
        crate::storage::filter_accepts(f, u),
    ensures
        effective_visibility(u.visibility) != Visibility::Limited,
        effective_visibility(u.visibility) == Visibility::Network ==> caller is Some && strings_view(
            following,
        ).contains(u.author),
{
    let vis = effective_visibility(u.visibility);
    assert(f.visibilities@.contains(vis));
    if sees_network(caller, following) {
        if f.visibilities@[0] == vis {
        } else {
            assert(f.visibilities@[1] == vis);
        }
    } else {
        assert(f.visibilities@[0] == vis);
    }
}

} // verus!
