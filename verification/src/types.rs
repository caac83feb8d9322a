//! Core data types: [`SemanticUnit`] and the enums and records it is made of.
//!
//! A unit's `confidence` is held as the IEEE-754 bit pattern of the `f64`
//! value (`f64::to_bits`), so that the library reasons about it exactly.
//! Extension fields are held as their names and their values' compact JSON
//! text.
use vstd::prelude::*;
use crate::text::str_eq;

verus! {

/// The semantic role of a unit.
#[derive(Debug, Clone, Copy, PartialEq, Eq, Structural)]
pub enum UnitType {
    /// A claim the author believes to be true.
    Assertion,
    /// An open question the author poses.
    Question,
    /// A claim explicitly derived from one or more other units.
    Inference,
    /// A dispute of another unit's content or assumptions.
    Challenge,
    /// A rule, boundary condition, or invariant others must respect.
    Constraint,
}

impl UnitType {
    /// The wire name of the type (`assertion`, `question`, ...).
    pub open spec fn name(self) -> Seq<char> {
        match self {
            UnitType::Assertion => "assertion"@,
            UnitType::Question => "question"@,
            UnitType::Inference => "inference"@,
            UnitType::Challenge => "challenge"@,
            UnitType::Constraint => "constraint"@,
        }
    }

    /// The wire name of the type, as rendered in text.
    pub fn as_str(&self) -> (s: &'static str)
        ensures
            s@ == self.name(),
    {
        match self {
            UnitType::Assertion => {
                proof {
                    reveal_strlit("assertion");
                }
                "assertion"
            },
            UnitType::Question => {
                proof {
                    reveal_strlit("question");
                }
                "question"
            },
            UnitType::Inference => {
                proof {
                    reveal_strlit("inference");
                }
                "inference"
            },
            UnitType::Challenge => {
                proof {
                    reveal_strlit("challenge");
                }
                "challenge"
            },
            UnitType::Constraint => {
                proof {
                    reveal_strlit("constraint");
                }
                "constraint"
            },
        }
    }

    /// The type whose wire name is exactly `s`, if any.
    pub fn from_name(s: &str) -> (r: Option<UnitType>)
        ensures
            r matches Some(t) ==> t.name() == s@,
            r is None ==> forall|t: UnitType| t.name() != s@,
    {
        proof {
            reveal_strlit("assertion");
            reveal_strlit("question");
            reveal_strlit("inference");
            reveal_strlit("challenge");
            reveal_strlit("constraint");
        }
        if str_eq(s, "assertion") {
            Some(UnitType::Assertion)
        } else if str_eq(s, "question") {
            Some(UnitType::Question)
        } else if str_eq(s, "inference") {
            Some(UnitType::Inference)
        } else if str_eq(s, "challenge") {
            Some(UnitType::Challenge)
        } else if str_eq(s, "constraint") {
            Some(UnitType::Constraint)
        } else {
            None
        }
    }
}

/// The typed relationship a referencing unit has to the unit it references.
#[derive(Debug, Clone, Copy, PartialEq, Eq, Structural)]
pub enum RelType {
    /// This unit provides evidence or reasoning for the referenced unit.
    Supports,
    /// This unit argues against the referenced unit's content.
    Rebuts,
    /// This unit's content was derived from the referenced unit.
    DerivesFrom,
    /// This unit raises a question about the referenced unit.
    Questions,
    /// This unit narrows or specialises the referenced unit.
    Refines,
    /// This unit is a notice about the referenced unit (a node's delivery
    /// report, for instance).
    Notifies,
}

impl RelType {
    /// The wire name of the relationship (`supports`, `derives-from`, ...).
    pub open spec fn name(self) -> Seq<char> {
        match self {
            RelType::Supports => "supports"@,
            RelType::Rebuts => "rebuts"@,
            RelType::DerivesFrom => "derives-from"@,
            RelType::Questions => "questions"@,
            RelType::Refines => "refines"@,
            RelType::Notifies => "notifies"@,
        }
    }

    /// The wire name of the relationship, as rendered in text.
    pub fn as_str(&self) -> (s: &'static str)
        ensures
            s@ == self.name(),
    {
        match self {
            RelType::Supports => {
                proof {
                    reveal_strlit("supports");
                }
                "supports"
            },
            RelType::Rebuts => {
                proof {
                    reveal_strlit("rebuts");
                }
                "rebuts"
            },
            RelType::DerivesFrom => {
                proof {
                    reveal_strlit("derives-from");
                }
                "derives-from"
            },
            RelType::Questions => {
                proof {
                    reveal_strlit("questions");
                }
                "questions"
            },
            RelType::Refines => {
                proof {
                    reveal_strlit("refines");
                }
                "refines"
            },
            RelType::Notifies => {
                proof {
                    reveal_strlit("notifies");
                }
                "notifies"
            },
        }
    }
}

/// Who may read a unit and how nodes distribute it.
#[derive(Debug, Clone, Copy, PartialEq, Eq, Structural)]
pub enum Visibility {
    /// Readable by anyone; enters global sync. The default.
    Public,
    /// Fanned out to the author's followers; excluded from open sync.
    Network,
    /// Delivered only to the agents named in `audience`.
    Limited,
}

impl Visibility {
    /// The wire name of the visibility.
    pub open spec fn name(self) -> Seq<char> {
        match self {
            Visibility::Public => "public"@,
            Visibility::Network => "network"@,
            Visibility::Limited => "limited"@,
        }
    }
}

/// The effective visibility of a unit whose `visibility` field is `v`
/// (absent means public).
pub open spec fn effective_visibility(v: Option<Visibility>) -> Visibility {
    match v {
        Some(x) => x,
        None => Visibility::Public,
    }
}

/// A typed link from a unit to another unit.
#[derive(Debug, Clone)]
pub struct Reference {
    /// UUIDv7 of the referenced unit.
    pub id: String,
    /// The relationship to the referenced unit.
    pub rel: RelType,
}

/// A citation or provenance reference for a unit's content.
#[derive(Debug, Clone)]
pub enum Source {
    /// A URI or free-form citation string.
    Uri(String),
    /// A structured citation with a label and an optional URI.
    Labeled { label: String, uri: Option<String> },
}

/// A signature attached to a unit.
#[derive(Debug, Clone)]
pub struct Proof {
    /// DID URL of the signing key (`did:key:...#did:key:...`).
    pub method: String,
    /// RFC 3339 timestamp of signing.
    pub created: String,
    /// Multibase (`z` + base58btc) Ed25519 signature.
    pub value: String,
}

/// Extension fields of a unit: names, each with its value's compact JSON
/// text. No name occurs twice; entries keep their insertion order.
#[derive(Debug)]
pub struct Extensions {
    entries: Vec<(String, String)>,
}

/// The view of a list of strings.
pub open spec fn strings_view(v: Seq<String>) -> Seq<Seq<char>> {
    v.map_values(|s: String| s@)
}

/// The view of a list of string pairs.
pub open spec fn pairs_view(v: Seq<(String, String)>) -> Seq<(Seq<char>, Seq<char>)> {
    v.map_values(|p: (String, String)| (p.0@, p.1@))
}

/// Whether no name occurs twice among the entries.
pub open spec fn distinct_names(e: Seq<(Seq<char>, Seq<char>)>) -> bool {
    forall|i: int, j: int| 0 <= i < j < e.len() ==> #[trigger] e[i].0 != #[trigger] e[j].0
}

impl View for Extensions {
    type V = Seq<(Seq<char>, Seq<char>)>;

    closed spec fn view(&self) -> Seq<(Seq<char>, Seq<char>)> {
        pairs_view(self.entries@)
    }
}

impl Extensions {
    #[verifier::type_invariant]
    closed spec fn wf(self) -> bool {
        distinct_names(pairs_view(self.entries@))
    }

    /// No extension fields.
    pub fn new() -> (r: Extensions)
        ensures
            r@ == Seq::<(Seq<char>, Seq<char>)>::empty(),
    {
        let r = Extensions { entries: Vec::new() };
        proof {
            assert(pairs_view(r.entries@) =~= Seq::<(Seq<char>, Seq<char>)>::empty());
        }
        r
    }

    /// Number of extension fields.
    pub fn len(&self) -> (n: usize)
        ensures
            n == self@.len(),
    {
        self.entries.len()
    }

    /// Whether there is no extension field.
    pub fn is_empty(&self) -> (b: bool)
        ensures
            b == (self@.len() == 0),
    {
        self.entries.len() == 0
    }

    /// The entry at position `i` (name, JSON value text).
    pub fn entry(&self, i: usize) -> (r: (&String, &String))
        requires
            i < self@.len(),
        ensures
            (r.0@, r.1@) == self@[i as int],
    {
        let p = &self.entries[i];
        (&p.0, &p.1)
    }

    /// The position of the entry named `name`, if any.
    pub fn position(&self, name: &str) -> (r: Option<usize>)
        ensures
            r matches Some(i) ==> i < self@.len() && self@[i as int].0 == name@,
            r is None ==> forall|i: int| 0 <= i < self@.len() ==> self@[i].0 != name@,
    {
        let mut i: usize = 0;
        while i < self.entries.len()
            invariant
                i <= self@.len(),
                self@.len() == self.entries@.len(),
                self@ == pairs_view(self.entries@),
                forall|j: int| 0 <= j < i ==> self@[j].0 != name@,
            decreases self@.len() - i,
        {
            if str_eq(self.entries[i].0.as_str(), name) {
                return Some(i);
            }
            i = i + 1;
        }
        None
    }

    /// The JSON value text of the field `name`, if present.
    pub fn get(&self, name: &str) -> (r: Option<&String>)
        ensures
            r matches Some(v) ==> exists|i: int|
                0 <= i < self@.len() && self@[i].0 == name@ && self@[i].1 == v@,
            r is None ==> forall|i: int| 0 <= i < self@.len() ==> self@[i].0 != name@,
    {
        match self.position(name) {
            Some(i) => Some(&self.entries[i].1),
            None => None,
        }
    }

    /// Sets the field `name` to `value`, replacing an existing value in place
    /// or appending a new field.
    pub fn insert(&mut self, name: String, value: String)
        ensures
            ({
                let o = old(self)@;
                let n = final(self)@;
                if exists|i: int| 0 <= i < o.len() && o[i].0 == name@ {
                    exists|i: int|
                        0 <= i < o.len() && o[i].0 == name@ && n == o.update(i, (name@, value@))
                } else {
                    n == o.push((name@, value@))
                }
            }),
    {
        proof {
            use_type_invariant(&*self);
        }
        let pos = self.position(name.as_str());
        match pos {
            Some(i) => {
                let ghost o = self@;
                let mut entries: Vec<(String, String)> = Vec::new();
                std::mem::swap(&mut entries, &mut self.entries);
                entries.set(i, (name, value));
                proof {
                    assert(pairs_view(entries@) =~= o.update(i as int, (name@, value@)));
                    assert(distinct_names(pairs_view(entries@))) by {
                        assert forall|a: int, b: int|
                            0 <= a < b < pairs_view(entries@).len() implies #[trigger] pairs_view(
                            entries@,
                        )[a].0 != #[trigger] pairs_view(entries@)[b].0 by {
                            assert(o[a].0 != o[b].0);
                        }
                    }
                }
                self.entries = entries;
            },
            None => {
                let ghost o = self@;
                let mut entries: Vec<(String, String)> = Vec::new();
                std::mem::swap(&mut entries, &mut self.entries);
                entries.push((name, value));
                proof {
                    assert(pairs_view(entries@) =~= o.push((name@, value@)));
                }
                self.entries = entries;
            },
        }
    }
}

impl Extensions {
    /// Whether both hold the same fields with the same values, in whatever
    /// order.
    pub fn same_entries(&self, other: &Extensions) -> (r: bool)
        ensures
            r == (self@.len() == other@.len() && forall|i: int|
                0 <= i < self@.len() ==> other@.contains(#[trigger] self@[i])),
    {
        proof {
            use_type_invariant(self);
            use_type_invariant(other);
        }
        if self.entries.len() != other.entries.len() {
            return false;
        }
        let mut i: usize = 0;
        while i < self.entries.len()
            invariant
                i <= self@.len(),
                self@ == pairs_view(self.entries@),
                self@.len() == self.entries@.len(),
                other@ == pairs_view(other.entries@),
                distinct_names(other@),
                self@.len() == other@.len(),
                forall|k: int| 0 <= k < i ==> other@.contains(#[trigger] self@[k]),
            decreases self@.len() - i,
        {
            let name = &self.entries[i].0;
            let value = &self.entries[i].1;
            let ghost e = self@[i as int];
            assert(e == (name@, value@));
            match other.get(name.as_str()) {
                Some(w) => {
                    if !str_eq(w.as_str(), value.as_str()) {
                        proof {
                            let j = choose|j: int|
                                0 <= j < other@.len() && other@[j].0 == name@ && other@[j].1 == w@;
                            if other@.contains(e) {
                                let k = choose|k: int| 0 <= k < other@.len() && other@[k] == e;
                                if k != j {
                                    if k < j {
                                        assert(other@[k].0 != other@[j].0);
                                    } else {
                                        assert(other@[j].0 != other@[k].0);
                                    }
                                }
                            }
                        }
                        return false;
                    }
                    proof {
                        let j = choose|j: int|
                            0 <= j < other@.len() && other@[j].0 == name@ && other@[j].1 == w@;
                        assert(other@[j] == e);
                    }
                },
                None => {
                    proof {
                        if other@.contains(e) {
                            let k = choose|k: int| 0 <= k < other@.len() && other@[k] == e;
                            assert(other@[k].0 == name@);
                        }
                    }
                    return false;
                },
            }
            i = i + 1;
        }
        true
    }
}

/// The view of a reference: the referenced id and the relationship.
pub open spec fn reference_view(r: Reference) -> (Seq<char>, RelType) {
    (r.id@, r.rel)
}

/// The view of a list of references.
pub open spec fn references_view(v: Seq<Reference>) -> Seq<(Seq<char>, RelType)> {
    v.map_values(|r: Reference| reference_view(r))
}

/// The view of a source.
pub enum SourceView {
    Uri(Seq<char>),
    Labeled(Seq<char>, Option<Seq<char>>),
}

/// The view of an optional string.
pub open spec fn opt_view(o: Option<String>) -> Option<Seq<char>> {
    match o {
        Some(s) => Some(s@),
        None => None,
    }
}

/// The view of a source.
pub open spec fn source_view(s: Source) -> SourceView {
    match s {
        Source::Uri(u) => SourceView::Uri(u@),
        Source::Labeled { label, uri } => SourceView::Labeled(label@, opt_view(uri)),
    }
}

/// The view of a proof: method, created, value.
pub open spec fn proof_view(p: Proof) -> (Seq<char>, Seq<char>, Seq<char>) {
    (p.method@, p.created@, p.value@)
}

/// The abstract content of a [`SemanticUnit`].
pub struct UnitView {
    pub id: Seq<char>,
    pub unit_type: UnitType,
    pub content: Seq<char>,
    pub created_at: Seq<char>,
    pub author: Seq<char>,
    pub confidence: Option<u64>,
    pub assumptions: Option<Seq<Seq<char>>>,
    pub source: Option<SourceView>,
    pub references: Option<Seq<(Seq<char>, RelType)>>,
    pub visibility: Option<Visibility>,
    pub audience: Option<Seq<Seq<char>>>,
    pub proof: Option<(Seq<char>, Seq<char>, Seq<char>)>,
    pub extensions: Seq<(Seq<char>, Seq<char>)>,
}

/// A Semantic Unit, the record type of the protocol.
#[derive(Debug, Clone)]
pub struct SemanticUnit {
    /// UUIDv7 identifier (RFC 9562).
    pub id: String,
    /// The semantic role of this unit.
    pub unit_type: UnitType,
    /// The human-readable statement this unit expresses.
    pub content: String,
    /// RFC 3339 timestamp of creation.
    pub created_at: String,
    /// Identifier of the agent that created this unit.
    pub author: String,
    /// Degree of belief as the bit pattern of an `f64` (`f64::to_bits`).
    pub confidence: Option<u64>,
    /// Conditions that must hold for the content to be valid.
    pub assumptions: Option<Vec<String>>,
    /// Citation or provenance.
    pub source: Option<Source>,
    /// Typed links to other units.
    pub references: Option<Vec<Reference>>,
    /// Distribution scope; absent means public.
    pub visibility: Option<Visibility>,
    /// Permitted readers of a limited unit.
    pub audience: Option<Vec<String>>,
    /// Signature over the canonical form of the unit without its proof.
    pub proof: Option<Proof>,
    /// Extension fields (`x-<reverse-domain>.<name>`).
    pub extensions: Extensions,
}

/// The view of an optional list of strings.
pub open spec fn opt_strings_view(o: Option<Vec<String>>) -> Option<Seq<Seq<char>>> {
    match o {
        Some(v) => Some(strings_view(v@)),
        None => None,
    }
}

impl View for SemanticUnit {
    type V = UnitView;

    open spec fn view(&self) -> UnitView {
        UnitView {
            id: self.id@,
            unit_type: self.unit_type,
            content: self.content@,
            created_at: self.created_at@,
            author: self.author@,
            confidence: self.confidence,
            assumptions: opt_strings_view(self.assumptions),
            source: match self.source {
                Some(s) => Some(source_view(s)),
                None => None,
            },
            references: match self.references {
                Some(r) => Some(references_view(r@)),
                None => None,
            },
            visibility: self.visibility,
            audience: opt_strings_view(self.audience),
            proof: match self.proof {
                Some(p) => Some(proof_view(p)),
                None => None,
            },
            extensions: self.extensions@,
        }
    }
}

/// A copy of a list of strings.
pub fn copy_strings(v: &Vec<String>) -> (r: Vec<String>)
    ensures
        strings_view(r@) == strings_view(v@),
{
    let mut r: Vec<String> = Vec::new();
    let mut i: usize = 0;
    while i < v.len()
        invariant
            i <= v@.len(),
            r@ == v@.take(i as int),
        decreases v@.len() - i,
    {
        r.push(v[i].clone());
        proof {
            assert(r@ =~= v@.take(i as int + 1));
        }
        i = i + 1;
    }
    proof {
        assert(v@.take(v@.len() as int) =~= v@);
    }
    r
}

/// A copy of an optional list of strings.
pub fn copy_opt_strings(o: &Option<Vec<String>>) -> (r: Option<Vec<String>>)
    ensures
        opt_strings_view(r) == opt_strings_view(*o),
{
    match o {
        Some(v) => Some(copy_strings(v)),
        None => None,
    }
}

/// A copy of an optional string.
pub fn copy_opt_string(o: &Option<String>) -> (r: Option<String>)
    ensures
        opt_view(r) == opt_view(*o),
{
    match o {
        Some(s) => Some(s.clone()),
        None => None,
    }
}

/// A copy of a list of references.
pub fn copy_references(v: &Vec<Reference>) -> (r: Vec<Reference>)
    ensures
        references_view(r@) == references_view(v@),
{
    let mut r: Vec<Reference> = Vec::new();
    let mut i: usize = 0;
    while i < v.len()
        invariant
            i <= v@.len(),
            r@ == v@.take(i as int),
        decreases v@.len() - i,
    {
        r.push(Reference { id: v[i].id.clone(), rel: v[i].rel });
        proof {
            assert(r@ =~= v@.take(i as int + 1));
        }
        i = i + 1;
    }
    proof {
        assert(v@.take(v@.len() as int) =~= v@);
    }
    r
}

impl Extensions {
    /// A copy of the extension fields.
    pub fn duplicate(&self) -> (r: Extensions)
        ensures
            r@ == self@,
    {
        proof {
            use_type_invariant(self);
        }
        let mut entries: Vec<(String, String)> = Vec::new();
        let mut i: usize = 0;
        while i < self.entries.len()
            invariant
                i <= self.entries@.len(),
                entries@ == self.entries@.take(i as int),
            decreases self.entries@.len() - i,
        {
            let p = &self.entries[i];
            entries.push((p.0.clone(), p.1.clone()));
            proof {
                assert(entries@ =~= self.entries@.take(i as int + 1));
            }
            i = i + 1;
        }
        proof {
            assert(self.entries@.take(self.entries@.len() as int) =~= self.entries@);
        }
        Extensions { entries }
    }
}

impl Clone for Extensions {
    fn clone(&self) -> (r: Extensions)
        ensures
            r@ == self@,
    {
        self.duplicate()
    }
}

impl SemanticUnit {
    /// A copy of the unit with the same content.
    pub fn duplicate(&self) -> (r: SemanticUnit)
        ensures
            r@ == self@,
    {
        SemanticUnit {
            id: self.id.clone(),
            unit_type: self.unit_type,
            content: self.content.clone(),
            created_at: self.created_at.clone(),
            author: self.author.clone(),
            confidence: self.confidence,
            assumptions: copy_opt_strings(&self.assumptions),
            source: match &self.source {
                Some(Source::Uri(u)) => Some(Source::Uri(u.clone())),
                Some(Source::Labeled { label, uri }) => Some(
                    Source::Labeled { label: label.clone(), uri: copy_opt_string(uri) },
                ),
                None => None,
            },
            references: match &self.references {
                Some(r) => Some(copy_references(r)),
                None => None,
            },
            visibility: self.visibility,
            audience: copy_opt_strings(&self.audience),
            proof: match self.proof.as_ref() {
                Some(p) => Some(
                    Proof {
                        method: p.method.clone(),
                        created: p.created.clone(),
                        value: p.value.clone(),
                    },
                ),
                None => None,
            },
            extensions: self.extensions.duplicate(),
        }
    }

    /// A new unit of this type, content and author, with a fresh UUIDv7 id,
    /// the current time as `created_at`, and every optional field absent.
    pub fn new(unit_type: UnitType, content: &str, author: &str) -> (r: SemanticUnit)
        ensures
            crate::external::spec_uuid_version(r@.id) == Some(7usize),
            crate::external::spec_rfc3339_instant(r@.created_at) is Some,
            r@.unit_type == unit_type,
            r@.content == content@,
            r@.author == author@,
            r@.confidence is None,
            r@.assumptions is None,
            r@.source is None,
            r@.references is None,
            r@.visibility is None,
            r@.audience is None,
            r@.proof is None,
            r@.extensions.len() == 0,
    {
        SemanticUnit::with_parts(
            crate::external::new_uuid_v7(),
            unit_type,
            crate::text::to_owned_string(content),
            crate::external::now_rfc3339(),
            crate::text::to_owned_string(author),
        )
    }

    /// A unit with the given identity, type, content, timestamp and author,
    /// and every optional field absent.
    pub fn with_parts(
        id: String,
        unit_type: UnitType,
        content: String,
        created_at: String,
        author: String,
    ) -> (r: SemanticUnit)
        ensures
            r@.id == id@,
            r@.unit_type == unit_type,
            r@.content == content@,
            r@.created_at == created_at@,
            r@.author == author@,
            r@.confidence is None,
            r@.assumptions is None,
            r@.source is None,
            r@.references is None,
            r@.visibility is None,
            r@.audience is None,
            r@.proof is None,
            r@.extensions.len() == 0,
    {
        SemanticUnit {
            id,
            unit_type,
            content,
            created_at,
            author,
            confidence: None,
            assumptions: None,
            source: None,
            references: None,
            visibility: None,
            audience: None,
            proof: None,
            extensions: Extensions::new(),
        }
    }
}

} // verus!
