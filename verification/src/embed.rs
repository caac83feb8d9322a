//! Entry points for hosts that embed the library (a browser, another
//! language through WebAssembly): create a unit from loose options, and
//! render one unit or several. Parsing and printing JSON is the host's.
use vstd::prelude::*;
use crate::graph::{added, Graph};
use crate::node::type_named;
use crate::render::{has_short_cut, has_short_id, render_graph, render_unit, rendered_graph, rendered_unit};
use crate::types::{strings_view, SemanticUnit, Source, SourceView, UnitType, UnitView};
use crate::validation::{first_violation, validate_unit, ValidationError};

verus! {

/// Optional fields of a new unit, as a host supplies them.
#[derive(Debug, Clone, PartialEq, Eq)]
pub struct UnitOptions {
    /// Degree of belief, as the bit pattern of an `f64`.
    pub confidence: Option<u64>,
    /// Assumptions; an empty list means none.
    pub assumptions: Vec<String>,
    /// A source URI or citation.
    pub source: Option<String>,
}

/// Why a unit could not be created.
#[derive(Debug, Clone, PartialEq)]
pub enum NewUnitError {
    /// No unit type has this name.
    UnknownType(String),
    /// The unit would break this rule.
    Invalid(ValidationError),
}

/// Whether `u` is a unit of type `t` with this content and author and these
/// options, all other optional fields absent.
pub open spec fn built_from(
    u: UnitView,
    t: UnitType,
    content: Seq<char>,
    author: Seq<char>,
    options: UnitOptions,
) -> bool {
    &&& u.unit_type == t
    &&& u.content == content
    &&& u.author == author
    &&& u.confidence == options.confidence
    &&& u.assumptions == (if options.assumptions@.len() == 0 {
        None::<Seq<Seq<char>>>
    } else {
        Some(strings_view(options.assumptions@))
    })
    &&& u.source == (match options.source {
        Some(s) => Some(SourceView::Uri(s@)),
        None => None,
    })
    &&& u.references is None
    &&& u.visibility is None
    &&& u.audience is None
    &&& u.proof is None
    &&& u.extensions.len() == 0
    &&& crate::external::spec_uuid_version(u.id) == Some(7usize)
    &&& crate::external::spec_rfc3339_instant(u.created_at) is Some
}

/// Creates a unit of the type named `unit_type`, with a fresh id and the
/// current time, and checks it.
pub fn new_unit(unit_type: &str, content: &str, author: &str, options: UnitOptions) -> (r: Result<
    SemanticUnit,
    NewUnitError,
>)
    ensures
        match type_named(unit_type@) {
            None => r matches Err(NewUnitError::UnknownType(s)) && s@ == unit_type@,
            Some(t) => match r {
                Ok(u) => built_from(u@, t, content@, author@, options) && first_violation(u@)
                    is None,
                Err(NewUnitError::Invalid(e)) => exists|u: UnitView|
                    built_from(u, t, content@, author@, options) && first_violation(u) == Some(
                        e@,
                    ),
                Err(_) => false,
            },
        },
{
    let t = match crate::node::parse_type(unit_type) {
        Some(t) => t,
        None => {
            return Err(NewUnitError::UnknownType(crate::text::to_owned_string(unit_type)));
        },
    };
    let mut unit = SemanticUnit::new(t, content, author);
    unit.confidence = options.confidence;
    unit.assumptions = if options.assumptions.len() == 0 {
        None
    } else {
        Some(options.assumptions)
    };
    unit.source = match options.source {
        Some(s) => Some(Source::Uri(s)),
        None => None,
    };
    match validate_unit(&unit) {
        Ok(()) => Ok(unit),
        Err(e) => Err(NewUnitError::Invalid(e)),
    }
}

/// Why units could not be rendered.
#[derive(Debug, Clone, PartialEq, Eq)]
pub enum RenderError {
    /// There is no unit.
    Empty,
    /// This id cannot be shortened to its first eight bytes.
    UnshortenableId(String),
}

/// Renders one unit in full (with `confidence` as the formatted confidence
/// of that unit, given exactly when it has one), or several as the summary
/// of their graph.
#[verifier::loop_isolation(false)]
pub fn render_units(units: Vec<SemanticUnit>, confidence: Option<&str>) -> (r: Result<
    String,
    RenderError,
>)
    requires
        units@.len() == 1 ==> (confidence is Some <==> units@[0]@.confidence is Some),
    ensures
        units@.len() == 0 ==> r == Err::<String, RenderError>(RenderError::Empty),
        units@.len() == 1 ==> (r matches Ok(s) && s@ == rendered_unit(
            units@[0]@,
            match confidence {
                Some(c) => Some(c@),
                None => None,
            },
        )),
        units@.len() > 1 ==> match r {
            Ok(s) => exists|g: Seq<UnitView>| s@ == rendered_graph(g) && g == units@.map_values(
                |u: SemanticUnit| u@,
            ).fold_left(Seq::<UnitView>::empty(), |g: Seq<UnitView>, u: UnitView| added(g, u)),
            Err(RenderError::UnshortenableId(id)) => !has_short_cut(id@),
            Err(_) => false,
        },
{
    let n = units.len();
    if n == 0 {
        return Err(RenderError::Empty);
    }
    if n == 1 {
        return Ok(render_unit(&units[0], confidence));
    }
    let graph = Graph::from_units(units);
    let all = graph.units();
    let mut i: usize = 0;
    while i < all.len()
        invariant
            i <= all@.len(),
            all@.map_values(|u: SemanticUnit| u@) == graph@,
            forall|j: int| 0 <= j < i ==> has_short_cut(#[trigger] graph@[j].id),
        decreases all@.len() - i,
    {
        assert(graph@[i as int] == all@[i as int]@);
        if !has_short_id(all[i].id.as_str()) {
            return Err(RenderError::UnshortenableId(crate::text::copy_string(&all[i].id)));
        }
        i = i + 1;
    }
    Ok(render_graph(&graph))
}

} // verus!
