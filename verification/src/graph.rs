//! An in-memory collection of [`SemanticUnit`]s connected by references,
//! with traversal queries.
//!
//! Units are indexed by `id`; adding a unit whose id is already present
//! replaces the earlier entry. Units are kept in insertion order.
use vstd::prelude::*;
use crate::text::str_eq;
use crate::types::{RelType, SemanticUnit, UnitType, UnitView};

verus! {

// ---------------------------------------------------------------------------
// Specification
// ---------------------------------------------------------------------------

/// The ids a unit references, in order.
pub open spec fn ref_ids(u: UnitView) -> Seq<Seq<char>> {
    match u.references {
        Some(rs) => rs.map_values(|r: (Seq<char>, RelType)| r.0),
        None => Seq::empty(),
    }
}

/// Whether some unit of `g` has the id `id`.
pub open spec fn has_id(g: Seq<UnitView>, id: Seq<char>) -> bool {
    exists|j: int| 0 <= j < g.len() && #[trigger] g[j].id == id
}

/// Whether no id occurs twice in `g`.
pub open spec fn distinct_ids(g: Seq<UnitView>) -> bool {
    forall|i: int, j: int| 0 <= i < g.len() && 0 <= j < g.len() && i != j ==> #[trigger] g[i].id
        != #[trigger] g[j].id
}

/// The unit of `g` with the id `id` (meaningful when `has_id(g, id)`).
pub open spec fn unit_with_id(g: Seq<UnitView>, id: Seq<char>) -> UnitView {
    g[choose|j: int| 0 <= j < g.len() && g[j].id == id]
}

/// One traversal step from the unit `x` to the unit `y`: forward, `x` is in
/// `g` and references `y`, which is in `g`; backward, `y` is in `g` and
/// references `x`.
pub open spec fn edge(g: Seq<UnitView>, forward: bool, x: Seq<char>, y: Seq<char>) -> bool {
    if forward {
        exists|i: int|
            0 <= i < g.len() && #[trigger] g[i].id == x && ref_ids(g[i]).contains(y) && has_id(g, y)
    } else {
        exists|j: int| 0 <= j < g.len() && #[trigger] g[j].id == y && ref_ids(g[j]).contains(x)
    }
}

/// Whether the set `s` holds every unit one step from `a` and holds every
/// unit one step from any unit it holds.
pub open spec fn closed_from(g: Seq<UnitView>, forward: bool, a: Seq<char>, s: Set<Seq<char>>) -> bool {
    &&& forall|y: Seq<char>| #[trigger] edge(g, forward, a, y) ==> s.contains(y)
    &&& forall|x: Seq<char>, y: Seq<char>| s.contains(x) && #[trigger] edge(g, forward, x, y) ==> s.contains(y)
}

/// `b` is reached from `a` in one or more steps: it lies in every set that
/// holds `a`'s successors and is closed under steps.
pub open spec fn reachable(g: Seq<UnitView>, forward: bool, a: Seq<char>, b: Seq<char>) -> bool {
    forall|s: Set<Seq<char>>| #[trigger] closed_from(g, forward, a, s) ==> s.contains(b)
}

/// The view of a list of unit references.
pub open spec fn refs_view(r: Seq<&SemanticUnit>) -> Seq<UnitView> {
    r.map_values(|u: &SemanticUnit| u@)
}

/// The result of a transitive traversal from `start`: each unit of `g`
/// reached in one or more steps, other than `start` itself, exactly once.
pub open spec fn is_traversal(g: Seq<UnitView>, forward: bool, start: Seq<char>, r: Seq<UnitView>) -> bool {
    &&& forall|k: int| 0 <= k < r.len() ==> g.contains(#[trigger] r[k])
    &&& forall|k: int| 0 <= k < r.len() ==> reachable(g, forward, start, #[trigger] r[k].id)
    &&& forall|k: int| 0 <= k < r.len() ==> #[trigger] r[k].id != start
    &&& forall|b: Seq<char>|
        reachable(g, forward, start, b) && b != start ==> exists|k: int|
            0 <= k < r.len() && #[trigger] r[k].id == b
    &&& distinct_ids(r)
}

/// The units `id` references that are in `g`, in reference order.
pub open spec fn outgoing_spec(g: Seq<UnitView>, id: Seq<char>) -> Seq<UnitView> {
    if has_id(g, id) {
        ref_ids(unit_with_id(g, id)).filter(|y: Seq<char>| has_id(g, y)).map_values(
            |y: Seq<char>| unit_with_id(g, y),
        )
    } else {
        Seq::empty()
    }
}

/// The units of `g` that reference `id`, in graph order.
pub open spec fn incoming_spec(g: Seq<UnitView>, id: Seq<char>) -> Seq<UnitView> {
    g.filter(|u: UnitView| ref_ids(u).contains(id))
}

/// The units of `g` of type `t`, in graph order.
pub open spec fn by_type_spec(g: Seq<UnitView>, t: UnitType) -> Seq<UnitView> {
    g.filter(|u: UnitView| u.unit_type == t)
}

/// Whether the unit `u` belongs to the connected subgraph around `id`.
pub open spec fn in_subgraph(g: Seq<UnitView>, id: Seq<char>, u: UnitView) -> bool {
    u.id == id || reachable(g, true, id, u.id) || reachable(g, false, id, u.id)
}

/// The graph `g` after adding `u`: replaced in place when its id is present,
/// appended otherwise.
pub open spec fn added(g: Seq<UnitView>, u: UnitView) -> Seq<UnitView> {
    if has_id(g, u.id) {
        g.update(choose|j: int| 0 <= j < g.len() && g[j].id == u.id, u)
    } else {
        g.push(u)
    }
}

// ---------------------------------------------------------------------------
// Graph
// ---------------------------------------------------------------------------

/// A local, in-memory collection of units connected by references.
#[derive(Debug)]
pub struct Graph {
    units: Vec<SemanticUnit>,
}

/// Whether the unit `u` references the id `id`.
pub fn unit_references(u: &SemanticUnit, id: &str) -> (r: bool)
    ensures
        r == ref_ids(u@).contains(id@),
{
    match &u.references {
        None => {
            proof {
                assert(ref_ids(u@) =~= Seq::<Seq<char>>::empty());
            }
            false
        },
        Some(rs) => {
            let ghost ids = ref_ids(u@);
            let mut k: usize = 0;
            while k < rs.len()
                invariant
                    k <= rs@.len(),
                    ids == ref_ids(u@),
                    ids.len() == rs@.len(),
                    forall|m: int| 0 <= m < rs@.len() ==> #[trigger] ids[m] == rs@[m].id@,
                    forall|m: int| 0 <= m < k ==> ids[m] != id@,
                decreases rs@.len() - k,
            {
                if str_eq(rs[k].id.as_str(), id) {
                    proof {
                        assert(ids[k as int] == id@);
                    }
                    return true;
                }
                k = k + 1;
            }
            false
        },
    }
}

impl View for Graph {
    type V = Seq<UnitView>;

    closed spec fn view(&self) -> Seq<UnitView> {
        self.units@.map_values(|u: SemanticUnit| u@)
    }
}

/// One more step extends a reach.
proof fn lemma_reach_step(g: Seq<UnitView>, forward: bool, a: Seq<char>, x: Seq<char>, y: Seq<char>)
    requires
        reachable(g, forward, a, x) || x == a,
        edge(g, forward, x, y),
    ensures
        reachable(g, forward, a, y),
{
    assert forall|s: Set<Seq<char>>| #[trigger] closed_from(g, forward, a, s) implies s.contains(y) by {
        if x != a {
            assert(s.contains(x));
        }
    }
}

/// A step followed by a reach is a reach.
proof fn lemma_reach_prepend(g: Seq<UnitView>, forward: bool, a: Seq<char>, y: Seq<char>, b: Seq<char>)
    requires
        edge(g, forward, a, y),
        reachable(g, forward, y, b) || y == b,
    ensures
        reachable(g, forward, a, b),
{
    assert forall|s: Set<Seq<char>>| #[trigger] closed_from(g, forward, a, s) implies s.contains(b) by {
        assert(s.contains(y));
        if y != b {
            assert(closed_from(g, forward, y, s));
        }
    }
}

/// Every unit reached in one or more steps is in the graph.
pub proof fn lemma_reached_in_graph(g: Seq<UnitView>, forward: bool, a: Seq<char>, b: Seq<char>)
    requires
        reachable(g, forward, a, b),
    ensures
        has_id(g, b),
{
    let t = Set::new(|z: Seq<char>| has_id(g, z));
    assert forall|y: Seq<char>| #[trigger] edge(g, forward, a, y) implies t.contains(y) by {
        if !forward {
            let j = choose|j: int| 0 <= j < g.len() && #[trigger] g[j].id == y && ref_ids(g[j]).contains(a);
            assert(g[j].id == y);
        }
    }
    assert forall|x: Seq<char>, y: Seq<char>| t.contains(x) && #[trigger] edge(g, forward, x, y) implies t.contains(y) by {
        if !forward {
            let j = choose|j: int| 0 <= j < g.len() && #[trigger] g[j].id == y && ref_ids(g[j]).contains(x);
            assert(g[j].id == y);
        }
    }
    assert(closed_from(g, forward, a, t));
}

/// A forward step between units of the graph is a backward step taken the
/// other way.
proof fn lemma_edge_dual(g: Seq<UnitView>, x: Seq<char>, y: Seq<char>)
    requires
        has_id(g, y),
    ensures
        edge(g, true, x, y) <==> edge(g, false, y, x),
{
    if edge(g, false, y, x) {
        let j = choose|j: int| 0 <= j < g.len() && #[trigger] g[j].id == x && ref_ids(g[j]).contains(y);
        assert(g[j].id == x);
    }
    if edge(g, true, x, y) {
        let i = choose|i: int| 0 <= i < g.len() && #[trigger] g[i].id == x && ref_ids(g[i]).contains(y) && has_id(g, y);
        assert(g[i].id == x);
    }
}

/// For two units of a graph, `b` is an ancestor of `a` (reached from `a`
/// by following references) exactly when `a` is a descendant of `b`
/// (reached from `b` by following references backwards).
pub proof fn lemma_ancestor_iff_descendant(g: Seq<UnitView>, a: Seq<char>, b: Seq<char>)
    requires
        has_id(g, a),
        has_id(g, b),
    ensures
        reachable(g, true, a, b) <==> reachable(g, false, b, a),
{
    if reachable(g, true, a, b) {
        let t = Set::new(|z: Seq<char>| reachable(g, false, z, a));
        assert forall|y: Seq<char>| #[trigger] edge(g, true, a, y) implies t.contains(y) by {
            let i = choose|i: int| 0 <= i < g.len() && #[trigger] g[i].id == a && ref_ids(g[i]).contains(y) && has_id(g, y);
            assert(g[i].id == a);
            lemma_edge_dual(g, a, y);
            lemma_reach_step(g, false, y, y, a);
        }
        assert forall|x: Seq<char>, y: Seq<char>| t.contains(x) && #[trigger] edge(g, true, x, y) implies t.contains(y) by {
            let i = choose|i: int| 0 <= i < g.len() && #[trigger] g[i].id == x && ref_ids(g[i]).contains(y) && has_id(g, y);
            assert(g[i].id == x);
            lemma_edge_dual(g, x, y);
            lemma_reach_prepend(g, false, y, x, a);
        }
        assert(closed_from(g, true, a, t));
    }
    if reachable(g, false, b, a) {
        let t = Set::new(|z: Seq<char>| reachable(g, true, z, b));
        assert forall|y: Seq<char>| #[trigger] edge(g, false, b, y) implies t.contains(y) by {
            let j = choose|j: int| 0 <= j < g.len() && #[trigger] g[j].id == y && ref_ids(g[j]).contains(b);
            assert(g[j].id == y);
            lemma_edge_dual(g, y, b);
            lemma_reach_step(g, true, y, y, b);
        }
        assert forall|x: Seq<char>, y: Seq<char>| t.contains(x) && #[trigger] edge(g, false, x, y) implies t.contains(y) by {
            let j = choose|j: int| 0 <= j < g.len() && #[trigger] g[j].id == y && ref_ids(g[j]).contains(x);
            assert(g[j].id == y);
            lemma_reached_in_graph(g, true, x, b);
            let w = choose|w: Seq<char>| #[trigger] edge(g, true, x, w) || true;
            assert(has_id(g, x)) by {
                lemma_first_step_in_graph(g, x, b);
            }
            lemma_edge_dual(g, y, x);
            lemma_reach_prepend(g, true, y, x, b);
        }
        assert(closed_from(g, false, b, t));
    }
}

/// The start of a forward reach is a unit of the graph.
proof fn lemma_first_step_in_graph(g: Seq<UnitView>, x: Seq<char>, b: Seq<char>)
    requires
        reachable(g, true, x, b),
    ensures
        has_id(g, x),
{
    if !has_id(g, x) {
        let t = Set::<Seq<char>>::empty();
        assert forall|y: Seq<char>| #[trigger] edge(g, true, x, y) implies t.contains(y) by {
            let i = choose|i: int| 0 <= i < g.len() && #[trigger] g[i].id == x && ref_ids(g[i]).contains(y) && has_id(g, y);
            assert(g[i].id == x);
        }
        assert(closed_from(g, true, x, t));
    }
}

impl Graph {
    #[verifier::type_invariant]
    closed spec fn wf(self) -> bool {
        distinct_ids(self.units@.map_values(|u: SemanticUnit| u@))
    }

    /// An empty graph.
    pub fn new() -> (r: Graph)
        ensures
            r@ == Seq::<UnitView>::empty(),
    {
        let r = Graph { units: Vec::new() };
        proof {
            assert(r.units@.map_values(|u: SemanticUnit| u@) =~= Seq::<UnitView>::empty());
        }
        r
    }

    /// The position of the unit with id `id`, if any.
    fn find_index(&self, id: &str) -> (r: Option<usize>)
        ensures
            r matches Some(i) ==> i < self@.len() && self@[i as int].id == id@,
            r is None ==> !has_id(self@, id@),
    {
        let mut i: usize = 0;
        while i < self.units.len()
            invariant
                i <= self.units@.len(),
                self@ == self.units@.map_values(|u: SemanticUnit| u@),
                forall|j: int| 0 <= j < i ==> self@[j].id != id@,
            decreases self.units@.len() - i,
        {
            if str_eq(self.units[i].id.as_str(), id) {
                return Some(i);
            }
            i = i + 1;
        }
        None
    }

    /// Inserts a unit. If a unit with the same id is present, it is replaced.
    pub fn add(&mut self, unit: SemanticUnit)
        ensures
            final(self)@ == added(old(self)@, unit@),
    {
        proof {
            use_type_invariant(&*self);
        }
        let ghost g = self@;
        let ghost u = unit@;
        match self.find_index(unit.id.as_str()) {
            Some(i) => {
                let mut units: Vec<SemanticUnit> = Vec::new();
                std::mem::swap(&mut units, &mut self.units);
                units.set(i, unit);
                proof {
                    let c = choose|j: int| 0 <= j < g.len() && g[j].id == u.id;
                    assert(c == i);
                    assert(units@.map_values(|x: SemanticUnit| x@) =~= g.update(i as int, u));
                    let h = units@.map_values(|x: SemanticUnit| x@);
                    assert forall|a: int, b: int|
                        0 <= a < h.len() && 0 <= b < h.len() && a != b implies #[trigger] h[a].id
                        != #[trigger] h[b].id by {
                        if a != i && b != i {
                            assert(g[a].id != g[b].id);
                        } else if a == i {
                            assert(g[i as int].id != g[b].id);
                        } else {
                            assert(g[i as int].id != g[a].id);
                        }
                    }
                }
                self.units = units;
            },
            None => {
                let mut units: Vec<SemanticUnit> = Vec::new();
                std::mem::swap(&mut units, &mut self.units);
                units.push(unit);
                proof {
                    assert(units@.map_values(|x: SemanticUnit| x@) =~= g.push(u));
                    let h = units@.map_values(|x: SemanticUnit| x@);
                    assert forall|a: int, b: int|
                        0 <= a < h.len() && 0 <= b < h.len() && a != b implies #[trigger] h[a].id
                        != #[trigger] h[b].id by {
                        if a < g.len() && b < g.len() {
                            assert(g[a].id != g[b].id);
                        } else if a == g.len() {
                            assert(h[b] == g[b]);
                        } else {
                            assert(h[a] == g[a]);
                        }
                    }
                }
                self.units = units;
            },
        }
    }

    /// Builds a graph from units, adding them in order.
    pub fn from_units(units: Vec<SemanticUnit>) -> (r: Graph)
        ensures
            r@ == units@.map_values(|u: SemanticUnit| u@).fold_left(
                Seq::<UnitView>::empty(),
                |g: Seq<UnitView>, u: UnitView| added(g, u),
            ),
    {
        let mut g = Graph::new();
        let ghost vs = units@.map_values(|u: SemanticUnit| u@);
        let ghost orig = units@;
        let mut units = units;
        let mut i: usize = 0;
        let n = units.len();
        while units.len() > 0
            invariant
                units@.len() + i == n,
                n == vs.len(),
                n == orig.len(),
                vs == orig.map_values(|u: SemanticUnit| u@),
                units@ == orig.skip(i as int),
                g@ == vs.take(i as int).fold_left(
                    Seq::<UnitView>::empty(),
                    |g: Seq<UnitView>, u: UnitView| added(g, u),
                ),
            decreases units@.len(),
        {
            let u = units.remove(0);
            proof {
                assert(u == orig[i as int]);
                assert(u@ == vs[i as int]);
                assert(vs.take(i as int + 1).drop_last() =~= vs.take(i as int));
            }
            g.add(u);
            i = i + 1;
            proof {
                assert(units@ =~= orig.skip(i as int));
            }
        }
        proof {
            assert(vs.take(n as int) =~= vs);
        }
        g
    }

    /// The unit with id `id`, if present.
    pub fn get(&self, id: &str) -> (r: Option<&SemanticUnit>)
        ensures
            r matches Some(u) ==> self@.contains(u@) && u@.id == id@,
            r is None ==> !has_id(self@, id@),
    {
        match self.find_index(id) {
            Some(i) => {
                proof {
                    assert(self@[i as int] == self.units@[i as int]@);
                }
                Some(&self.units[i])
            },
            None => None,
        }
    }

    /// The ids that the unit with id `id` references, in order; none when
    /// no unit has that id. A breadth-first walk follows these one hop out.
    pub fn references_of(&self, id: &str) -> (r: Vec<String>)
        ensures
            r@.map_values(|s: String| s@) == (if has_id(self@, id@) {
                ref_ids(unit_with_id(self@, id@))
            } else {
                Seq::<Seq<char>>::empty()
            }),
    {
        proof {
            use_type_invariant(self);
        }
        let ghost g = self@;
        let mut out: Vec<String> = Vec::new();
        let si = match self.find_index(id) {
            Some(si) => si,
            None => {
                proof {
                    assert(out@.map_values(|s: String| s@) =~= Seq::<Seq<char>>::empty());
                }
                return out;
            },
        };
        proof {
            let c = choose|j: int| 0 <= j < g.len() && g[j].id == id@;
            assert(c == si);
            assert(g[si as int] == self.units@[si as int]@);
        }
        let u = &self.units[si];
        match &u.references {
            None => {
                proof {
                    assert(out@.map_values(|s: String| s@) =~= Seq::<Seq<char>>::empty());
                }
            },
            Some(rs) => {
                let mut k: usize = 0;
                while k < rs.len()
                    invariant
                        k <= rs@.len(),
                        out@.map_values(|s: String| s@) == crate::types::references_view(rs@).take(
                            k as int,
                        ).map_values(|x: (Seq<char>, RelType)| x.0),
                    decreases rs@.len() - k,
                {
                    let ghost before = out@.map_values(|s: String| s@);
                    out.push(crate::text::copy_string(&rs[k].id));
                    proof {
                        assert(out@.map_values(|s: String| s@) =~= before.push(rs@[k as int].id@));
                        assert(crate::types::references_view(rs@).take(k as int + 1).map_values(
                            |x: (Seq<char>, RelType)| x.0,
                        ) =~= crate::types::references_view(rs@).take(k as int).map_values(
                            |x: (Seq<char>, RelType)| x.0,
                        ).push(rs@[k as int].id@));
                    }
                    k = k + 1;
                }
                proof {
                    assert(crate::types::references_view(rs@).take(rs@.len() as int) =~= crate::types::references_view(rs@));
                    assert(out@.map_values(|s: String| s@) =~= ref_ids(u@));
                }
            },
        }
        out
    }

    /// Takes in a unit found one hop further out during a breadth-first
    /// walk: when no unit has its id yet, it is added and its id appended
    /// to the next frontier `next`; otherwise nothing changes. Returns
    /// whether it was new.
    pub fn absorb(&mut self, next: &mut Vec<String>, unit: SemanticUnit) -> (r: bool)
        ensures
            r == !has_id(old(self)@, unit@.id),
            r ==> final(self)@ == old(self)@.push(unit@) && final(next)@.map_values(|s: String| s@)
                == old(next)@.map_values(|s: String| s@).push(unit@.id),
            !r ==> final(self)@ == old(self)@ && final(next)@ == old(next)@,
    {
        match self.get(unit.id.as_str()) {
            Some(_) => {
                false
            },
            None => {
                let ghost before = next@.map_values(|s: String| s@);
                next.push(crate::text::copy_string(&unit.id));
                proof {
                    assert(next@.map_values(|s: String| s@) =~= before.push(unit@.id));
                }
                self.add(unit);
                true
            },
        }
    }

    /// Total number of units.
    pub fn len(&self) -> (n: usize)
        ensures
            n == self@.len(),
    {
        self.units.len()
    }

    /// Whether the graph holds no unit.
    pub fn is_empty(&self) -> (b: bool)
        ensures
            b == (self@.len() == 0),
    {
        self.units.len() == 0
    }

    /// All units, in insertion order.
    pub fn units(&self) -> (r: &[SemanticUnit])
        ensures
            r@.map_values(|u: SemanticUnit| u@) == self@,
    {
        self.units.as_slice()
    }

    /// All units of type `unit_type`.
    pub fn by_type(&self, unit_type: &UnitType) -> (r: Vec<&SemanticUnit>)
        ensures
            refs_view(r@) == by_type_spec(self@, *unit_type),
    {
        let ghost g = self@;
        let mut r: Vec<&SemanticUnit> = Vec::new();
        let mut i: usize = 0;
        while i < self.units.len()
            invariant
                i <= self.units@.len(),
                g == self@,
                g == self.units@.map_values(|u: SemanticUnit| u@),
                refs_view(r@) == by_type_spec(g.take(i as int), *unit_type),
            decreases self.units@.len() - i,
        {
            proof {
                reveal_with_fuel(Seq::filter, 1);
                assert(g.take(i as int + 1).drop_last() =~= g.take(i as int));
            }
            if self.units[i].unit_type == *unit_type {
                r.push(&self.units[i]);
            }
            proof {
                assert(refs_view(r@) =~= by_type_spec(g.take(i as int + 1), *unit_type));
            }
            i = i + 1;
        }
        proof {
            assert(g.take(g.len() as int) =~= g);
        }
        r
    }

    /// Whether the unit at position `i` references `id`.
    #[verifier::loop_isolation(false)]
    fn references_id(&self, i: usize, id: &str) -> (r: bool)
        requires
            i < self@.len(),
        ensures
            r == ref_ids(self@[i as int]).contains(id@),
    {
        let u = &self.units[i];
        proof {
            assert(self@[i as int] == u@);
        }
        unit_references(u, id)
    }

    /// The units that `id` directly references, in reference order;
    /// references to units not in the graph are omitted.
    #[verifier::loop_isolation(false)]
    pub fn outgoing(&self, id: &str) -> (r: Vec<&SemanticUnit>)
        ensures
            refs_view(r@) == outgoing_spec(self@, id@),
    {
        proof {
            use_type_invariant(self);
        }
        let ghost g = self@;
        let mut r: Vec<&SemanticUnit> = Vec::new();
        let si = match self.find_index(id) {
            Some(si) => si,
            None => {
                proof {
                    assert(refs_view(r@) =~= outgoing_spec(g, id@));
                }
                return r;
            },
        };
        proof {
            let c = choose|j: int| 0 <= j < g.len() && g[j].id == id@;
            assert(c == si);
        }
        let u = &self.units[si];
        proof {
            assert(g[si as int] == u@);
        }
        match &u.references {
            None => {
                proof {
                    assert(ref_ids(u@) =~= Seq::<Seq<char>>::empty());
                    assert(refs_view(r@) =~= outgoing_spec(g, id@));
                }
                r
            },
            Some(rs) => {
                let ghost ids = ref_ids(u@);
                let ghost p = |y: Seq<char>| has_id(g, y);
                let ghost f = |y: Seq<char>| unit_with_id(g, y);
                let mut k: usize = 0;
                while k < rs.len()
                    invariant
                        k <= rs@.len(),
                        g == self@,
                        distinct_ids(g),
                        g == self.units@.map_values(|u: SemanticUnit| u@),
                        ids == ref_ids(u@),
                        ids.len() == rs@.len(),
                        p == (|y: Seq<char>| has_id(g, y)),
                        f == (|y: Seq<char>| unit_with_id(g, y)),
                        forall|m: int| 0 <= m < rs@.len() ==> #[trigger] ids[m] == rs@[m].id@,
                        refs_view(r@) == ids.take(k as int).filter(p).map_values(f),
                    decreases rs@.len() - k,
                {
                    proof {
                        reveal_with_fuel(Seq::filter, 1);
                        assert(ids.take(k as int + 1).drop_last() =~= ids.take(k as int));
                    }
                    match self.find_index(rs[k].id.as_str()) {
                        Some(j) => {
                            let ghost old_r = r@;
                            proof {
                                assert(p(ids[k as int]));
                                let c = choose|c: int| 0 <= c < g.len() && g[c].id == ids[k as int];
                                assert(c == j);
                                assert(g[j as int] == self.units@[j as int]@);
                                assert(f(ids[k as int]) == g[j as int]);
                                assert(ids.take(k as int + 1).filter(p) == ids.take(k as int).filter(
                                    p,
                                ).push(ids[k as int]));
                                lemma_map_push(ids.take(k as int).filter(p), ids[k as int], f);
                            }
                            r.push(&self.units[j]);
                            proof {
                                assert(refs_view(r@) =~= refs_view(old_r).push(g[j as int]));
                                assert(refs_view(r@) =~= ids.take(k as int + 1).filter(
                                    p,
                                ).map_values(f));
                            }
                        },
                        None => {
                            proof {
                                assert(!p(ids[k as int]));
                                assert(ids.take(k as int + 1).filter(p) == ids.take(k as int).filter(
                                    p,
                                ));
                                assert(refs_view(r@) =~= ids.take(k as int + 1).filter(
                                    p,
                                ).map_values(f));
                            }
                        },
                    }
                    k = k + 1;
                }
                proof {
                    assert(ids.take(ids.len() as int) =~= ids);
                }
                r
            },
        }
    }

    /// The units that directly reference `id`, in graph order.
    pub fn incoming(&self, id: &str) -> (r: Vec<&SemanticUnit>)
        ensures
            refs_view(r@) == incoming_spec(self@, id@),
    {
        let ghost g = self@;
        let mut r: Vec<&SemanticUnit> = Vec::new();
        let mut i: usize = 0;
        while i < self.units.len()
            invariant
                i <= self.units@.len(),
                g == self@,
                g == self.units@.map_values(|u: SemanticUnit| u@),
                refs_view(r@) == incoming_spec(g.take(i as int), id@),
            decreases self.units@.len() - i,
        {
            proof {
                reveal_with_fuel(Seq::filter, 1);
                assert(g.take(i as int + 1).drop_last() =~= g.take(i as int));
            }
            if self.references_id(i, id) {
                r.push(&self.units[i]);
            }
            proof {
                assert(refs_view(r@) =~= incoming_spec(g.take(i as int + 1), id@));
            }
            i = i + 1;
        }
        proof {
            assert(g.take(g.len() as int) =~= g);
        }
        r
    }

    /// Positions of the units one step from the unit at position `cur`
    /// (or from `id`, when `cur` is absent), in the given direction: every
    /// listed position is a step target, and every step target is listed.
    #[verifier::loop_isolation(false)]
    fn step_targets(&self, forward: bool, id: &str, cur: Option<usize>) -> (r: Vec<usize>)
        requires
            cur matches Some(c) ==> c < self@.len() && self@[c as int].id == id@,
            cur is None ==> !has_id(self@, id@),
        ensures
            forall|k: int| 0 <= k < r@.len() ==> #[trigger] r@[k] < self@.len() && edge(
                self@,
                forward,
                id@,
                self@[r@[k] as int].id,
            ),
            forall|y: Seq<char>|
                #[trigger] edge(self@, forward, id@, y) ==> exists|k: int|
                    0 <= k < r@.len() && self@[r@[k] as int].id == y,
    {
        proof {
            use_type_invariant(self);
        }
        let ghost g = self@;
        let mut r: Vec<usize> = Vec::new();
        if forward {
            let c = match cur {
                Some(c) => c,
                None => {
                    return r;
                },
            };
            let u = &self.units[c];
            proof {
                assert(g[c as int] == u@);
            }
            match &u.references {
                None => {
                    proof {
                        assert(ref_ids(u@) =~= Seq::<Seq<char>>::empty());
                        assert forall|y: Seq<char>| #[trigger] edge(g, forward, id@, y) implies false by {
                            let i = choose|i: int|
                                0 <= i < g.len() && #[trigger] g[i].id == id@ && ref_ids(g[i]).contains(y)
                                    && has_id(g, y);
                            assert(i == c);
                        }
                    }
                    r
                },
                Some(rs) => {
                    let ghost ids = ref_ids(u@);
                    let mut k: usize = 0;
                    while k < rs.len()
                        invariant
                            k <= rs@.len(),
                            forward,
                            g == self@,
                            distinct_ids(g),
                            c < g.len(),
                            g[c as int] == u@,
                            u@.id == id@,
                            ids == ref_ids(u@),
                            ids.len() == rs@.len(),
                            forall|m: int| 0 <= m < rs@.len() ==> #[trigger] ids[m] == rs@[m].id@,
                            forall|q: int| 0 <= q < r@.len() ==> #[trigger] r@[q] < g.len() && edge(
                                g,
                                forward,
                                id@,
                                g[r@[q] as int].id,
                            ),
                            forall|m: int|
                                0 <= m < k && has_id(g, #[trigger] ids[m]) ==> exists|q: int|
                                    0 <= q < r@.len() && g[r@[q] as int].id == ids[m],
                        decreases rs@.len() - k,
                    {
                        match self.find_index(rs[k].id.as_str()) {
                            Some(j) => {
                                proof {
                                    assert(ids[k as int] == g[j as int].id);
                                    assert(ids.contains(g[j as int].id));
                                    assert(has_id(g, g[j as int].id));
                                    assert(edge(g, forward, id@, g[j as int].id));
                                }
                                let ghost old_r = r@;
                                r.push(j);
                                proof {
                                    assert(r@[r@.len() - 1] == j);
                                    assert forall|mm: int|
                                        0 <= mm < k + 1 && has_id(g, #[trigger] ids[mm]) implies exists|q: int|
                                            0 <= q < r@.len() && g[r@[q] as int].id == ids[mm] by {
                                        if mm == k {
                                            assert(g[r@[r@.len() - 1] as int].id == ids[mm]);
                                        } else {
                                            let q = choose|q: int| 0 <= q < old_r.len() && g[old_r[q] as int].id == ids[mm];
                                            assert(r@[q] == old_r[q]);
                                        }
                                    }
                                }
                            },
                            None => {
                                proof {
                                    assert(!has_id(g, ids[k as int]));
                                }
                            },
                        }
                        k = k + 1;
                    }
                    proof {
                        assert forall|y: Seq<char>| #[trigger] edge(g, forward, id@, y) implies exists|q: int|
                            0 <= q < r@.len() && g[r@[q] as int].id == y by {
                            let i = choose|i: int|
                                0 <= i < g.len() && #[trigger] g[i].id == id@ && ref_ids(g[i]).contains(y)
                                    && has_id(g, y);
                            assert(i == c);
                            let m = choose|m: int| 0 <= m < ids.len() && ids[m] == y;
                            assert(has_id(g, ids[m]));
                        }
                    }
                    r
                },
            }
        } else {
            let mut i: usize = 0;
            while i < self.units.len()
                invariant
                    i <= g.len(),
                    !forward,
                    g == self@,
                    g.len() == self.units@.len(),
                    forall|q: int| 0 <= q < r@.len() ==> #[trigger] r@[q] < g.len() && edge(
                        g,
                        forward,
                        id@,
                        g[r@[q] as int].id,
                    ),
                    forall|j: int|
                        0 <= j < i && ref_ids(#[trigger] g[j]).contains(id@) ==> exists|q: int|
                            0 <= q < r@.len() && r@[q] == j,
                decreases g.len() - i,
            {
                if self.references_id(i, id) {
                    proof {
                        assert(edge(g, forward, id@, g[i as int].id));
                    }
                    let ghost old_r = r@;
                    r.push(i);
                    proof {
                        assert(r@[r@.len() - 1] == i);
                        assert forall|j: int|
                            0 <= j < i + 1 && ref_ids(#[trigger] g[j]).contains(id@) implies exists|q: int|
                                0 <= q < r@.len() && r@[q] == j by {
                            if j == i {
                                assert(r@[r@.len() - 1] == j);
                            } else {
                                let q = choose|q: int| 0 <= q < old_r.len() && old_r[q] == j;
                                assert(r@[q] == old_r[q]);
                            }
                        }
                    }
                }
                i = i + 1;
            }
            proof {
                assert forall|y: Seq<char>| #[trigger] edge(g, forward, id@, y) implies exists|q: int|
                    0 <= q < r@.len() && g[r@[q] as int].id == y by {
                    let j = choose|j: int| 0 <= j < g.len() && #[trigger] g[j].id == y && ref_ids(g[j]).contains(id@);
                    assert(ref_ids(g[j]).contains(id@));
                    let q = choose|q: int| 0 <= q < r@.len() && r@[q] == j;
                    assert(g[r@[q] as int].id == y);
                }
            }
            r
        }
    }

    /// Breadth-first traversal from `start`, excluding `start` itself.
    fn bfs(&self, start: &str, forward: bool) -> (r: Vec<&SemanticUnit>)
        ensures
            is_traversal(self@, forward, start@, refs_view(r@)),
    {
        proof {
            use_type_invariant(self);
        }
        let ghost g = self@;
        let n = self.units.len();
        let mut visited: Vec<bool> = Vec::new();
        let mut z: usize = 0;
        while z < n
            invariant
                z <= n,
                visited@.len() == z,
                forall|j: int| 0 <= j < z ==> !visited@[j],
            decreases n - z,
        {
            visited.push(false);
            z = z + 1;
        }
        let si = self.find_index(start);
        match si {
            Some(s) => {
                visited.set(s, true);
            },
            None => {},
        }
        let mut queue: Vec<usize> = Vec::new();
        let mut head: usize = 0;
        let first = self.step_targets(forward, start, si);
        let mut k: usize = 0;
        while k < first.len()
            invariant
                g == self@,
                n == g.len(),
                distinct_ids(g),
                si matches Some(s) ==> s < n && g[s as int].id == start@,
                si is None ==> !has_id(g, start@),
                visited@.len() == n,
                k <= first@.len(),
                head == 0,
                forall|q: int| 0 <= q < first@.len() ==> #[trigger] first@[q] < n && edge(
                    g,
                    forward,
                    start@,
                    g[first@[q] as int].id,
                ),
                forall|q: int| 0 <= q < queue@.len() ==> #[trigger] queue@[q] < n,
                forall|a: int, b: int|
                    0 <= a < b < queue@.len() ==> #[trigger] queue@[a] != #[trigger] queue@[b],
                forall|j: int|
                    0 <= j < n ==> (#[trigger] visited@[j] <==> (queue@.contains(j as usize) || si
                        == Some(j as usize))),
                forall|q: int|
                    0 <= q < queue@.len() ==> reachable(g, forward, start@, #[trigger] g[queue@[q] as int].id),
                forall|q: int| 0 <= q < queue@.len() ==> #[trigger] g[queue@[q] as int].id != start@,
                forall|q: int| 0 <= q < k ==> #[trigger] visited@[first@[q] as int],
                forall|y: Seq<char>|
                    #[trigger] edge(g, forward, start@, y) ==> exists|q: int|
                        0 <= q < first@.len() && g[first@[q] as int].id == y,
                queue@.len() <= n,
            decreases first@.len() - k,
        {
            let j = first[k];
            if !visited[j] {
                proof {
                    lemma_reach_step(g, forward, start@, start@, g[j as int].id);
                    if let Some(s) = si {
                        assert(j != s);
                    }
                }
                let ghost old_q = queue@;
                let ghost old_v = visited@;
                visited.set(j, true);
                queue.push(j);
                proof {
                    lemma_push_queue(old_q, old_v, queue@, visited@, j, si, n);
                }
            }
            k = k + 1;
        }
        proof {
            assert forall|y: Seq<char>| #[trigger] edge(g, forward, start@, y) implies exists|j: int|
                0 <= j < n && g[j].id == y && visited@[j] by {
                let q = choose|q: int| 0 <= q < first@.len() && g[first@[q] as int].id == y;
                assert(visited@[first@[q] as int]);
                assert(0 <= first@[q] < n && g[first@[q] as int].id == y);
            }
        }
        while head < queue.len()
            invariant
                g == self@,
                n == g.len(),
                distinct_ids(g),
                si matches Some(s) ==> s < n && g[s as int].id == start@,
                si is None ==> !has_id(g, start@),
                visited@.len() == n,
                head <= queue@.len(),
                queue@.len() <= n,
                forall|q: int| 0 <= q < queue@.len() ==> #[trigger] queue@[q] < n,
                forall|a: int, b: int|
                    0 <= a < b < queue@.len() ==> #[trigger] queue@[a] != #[trigger] queue@[b],
                forall|j: int|
                    0 <= j < n ==> (#[trigger] visited@[j] <==> (queue@.contains(j as usize) || si
                        == Some(j as usize))),
                forall|q: int|
                    0 <= q < queue@.len() ==> reachable(g, forward, start@, #[trigger] g[queue@[q] as int].id),
                forall|q: int| 0 <= q < queue@.len() ==> #[trigger] g[queue@[q] as int].id != start@,
                forall|y: Seq<char>|
                    #[trigger] edge(g, forward, start@, y) ==> exists|j: int|
                        0 <= j < n && g[j].id == y && visited@[j],
                forall|q: int, y: Seq<char>|
                    0 <= q < head && #[trigger] edge(g, forward, g[queue@[q] as int].id, y)
                        ==> exists|j: int| 0 <= j < n && g[j].id == y && visited@[j],
            decreases n - head,
        {
            let cur = queue[head];
            let nb = self.step_targets(forward, self.units[cur].id.as_str(), Some(cur));
            let ghost cur_id = g[cur as int].id;
            let mut m: usize = 0;
            while m < nb.len()
                invariant
                    g == self@,
                    n == g.len(),
                    distinct_ids(g),
                    si matches Some(s) ==> s < n && g[s as int].id == start@,
                    si is None ==> !has_id(g, start@),
                    visited@.len() == n,
                    head < queue@.len(),
                    queue@.len() <= n,
                    cur == queue@[head as int],
                    cur_id == g[cur as int].id,
                    m <= nb@.len(),
                    reachable(g, forward, start@, cur_id),
                    forall|q: int| 0 <= q < nb@.len() ==> #[trigger] nb@[q] < n && edge(
                        g,
                        forward,
                        cur_id,
                        g[nb@[q] as int].id,
                    ),
                    forall|y: Seq<char>|
                        #[trigger] edge(g, forward, cur_id, y) ==> exists|q: int|
                            0 <= q < nb@.len() && g[nb@[q] as int].id == y,
                    forall|q: int| 0 <= q < queue@.len() ==> #[trigger] queue@[q] < n,
                    forall|a: int, b: int|
                        0 <= a < b < queue@.len() ==> #[trigger] queue@[a] != #[trigger] queue@[b],
                    forall|j: int|
                        0 <= j < n ==> (#[trigger] visited@[j] <==> (queue@.contains(j as usize)
                            || si == Some(j as usize))),
                    forall|q: int|
                        0 <= q < queue@.len() ==> reachable(g, forward, start@, #[trigger] g[queue@[q] as int].id),
                    forall|q: int| 0 <= q < queue@.len() ==> #[trigger] g[queue@[q] as int].id != start@,
                    forall|y: Seq<char>|
                        #[trigger] edge(g, forward, start@, y) ==> exists|j: int|
                            0 <= j < n && g[j].id == y && visited@[j],
                    forall|q: int, y: Seq<char>|
                        0 <= q < head && #[trigger] edge(g, forward, g[queue@[q] as int].id, y)
                            ==> exists|j: int| 0 <= j < n && g[j].id == y && visited@[j],
                    forall|q: int| 0 <= q < m ==> #[trigger] visited@[nb@[q] as int],
                decreases nb@.len() - m,
            {
                let j = nb[m];
                if !visited[j] {
                    proof {
                        lemma_reach_step(g, forward, start@, cur_id, g[j as int].id);
                        if let Some(s) = si {
                            assert(j != s);
                        }
                        if g[j as int].id == start@ {
                            if let Some(s) = si {
                                assert(s == j);
                            } else {
                                assert(has_id(g, start@));
                            }
                        }
                    }
                    let ghost old_q = queue@;
                    let ghost old_v = visited@;
                    visited.set(j, true);
                    queue.push(j);
                    proof {
                        lemma_push_queue(old_q, old_v, queue@, visited@, j, si, n);
                        assert forall|q: int, y: Seq<char>|
                            0 <= q < head && #[trigger] edge(g, forward, g[queue@[q] as int].id, y)
                                implies exists|jj: int| 0 <= jj < n && g[jj].id == y && visited@[jj] by {
                            assert(queue@[q] == old_q[q]);
                            let jj = choose|jj: int| 0 <= jj < n && g[jj].id == y && old_v[jj];
                            assert(visited@[jj]);
                        }
                        assert forall|y: Seq<char>|
                            #[trigger] edge(g, forward, start@, y) implies exists|jj: int|
                                0 <= jj < n && g[jj].id == y && visited@[jj] by {
                            let jj = choose|jj: int| 0 <= jj < n && g[jj].id == y && old_v[jj];
                            assert(visited@[jj]);
                        }
                        assert forall|q: int| 0 <= q < m + 1 implies #[trigger] visited@[nb@[q] as int] by {
                            if q < m {
                                assert(old_v[nb@[q] as int]);
                            }
                        }
                    }
                }
                m = m + 1;
            }
            proof {
                assert forall|q: int, y: Seq<char>|
                    0 <= q < head + 1 && #[trigger] edge(g, forward, g[queue@[q] as int].id, y)
                        implies exists|j: int| 0 <= j < n && g[j].id == y && visited@[j] by {
                    if q == head {
                        let qq = choose|qq: int| 0 <= qq < nb@.len() && g[nb@[qq] as int].id == y;
                        assert(visited@[nb@[qq] as int]);
                    }
                }
            }
            head = head + 1;
        }
        // Collect the queue, which holds exactly the reached units.
        let mut r: Vec<&SemanticUnit> = Vec::new();
        let mut t: usize = 0;
        while t < queue.len()
            invariant
                g == self@,
                g == self.units@.map_values(|u: SemanticUnit| u@),
                t <= queue@.len(),
                forall|q: int| 0 <= q < queue@.len() ==> #[trigger] queue@[q] < n,
                n == g.len(),
                r@.len() == t,
                forall|q: int| 0 <= q < t ==> #[trigger] r@[q]@ == g[queue@[q] as int],
            decreases queue@.len() - t,
        {
            r.push(&self.units[queue[t]]);
            t = t + 1;
        }
        proof {
            let rv = refs_view(r@);
            let vis = Set::new(|x: Seq<char>| exists|j: int| 0 <= j < n && g[j].id == x && visited@[j]);
            assert forall|x: Seq<char>, y: Seq<char>|
                vis.contains(x) && #[trigger] edge(g, forward, x, y) implies vis.contains(y) by {
                let j = choose|j: int| 0 <= j < n && g[j].id == x && visited@[j];
                if si == Some(j as usize) {
                    assert(x == start@);
                } else {
                    let q = choose|q: int| 0 <= q < queue@.len() && queue@[q] == j;
                    assert(edge(g, forward, g[queue@[q] as int].id, y));
                }
            }
            assert forall|y: Seq<char>| edge(g, forward, start@, y) implies #[trigger] vis.contains(y) by {}
            assert forall|b: Seq<char>|
                reachable(g, forward, start@, b) && b != start@ implies exists|k: int|
                    0 <= k < rv.len() && #[trigger] rv[k].id == b by {
                assert(closed_from(g, forward, start@, vis));
                let j = choose|j: int| 0 <= j < n && g[j].id == b && visited@[j];
                if si == Some(j as usize) {
                    assert(false);
                }
                let q = choose|q: int| 0 <= q < queue@.len() && queue@[q] == j;
                assert(rv[q].id == b);
            }
            assert forall|k: int| 0 <= k < rv.len() implies g.contains(#[trigger] rv[k]) by {
                assert(g[queue@[k] as int] == rv[k]);
            }
            assert forall|k: int| 0 <= k < rv.len() implies reachable(g, forward, start@, #[trigger] rv[k].id) by {
                assert(rv[k].id == g[queue@[k] as int].id);
            }
            assert forall|k: int| 0 <= k < rv.len() implies #[trigger] rv[k].id != start@ by {
                assert(rv[k].id == g[queue@[k] as int].id);
            }
            assert forall|a: int, b: int|
                0 <= a < rv.len() && 0 <= b < rv.len() && a != b implies #[trigger] rv[a].id
                != #[trigger] rv[b].id by {
                assert(rv[a] == g[queue@[a] as int]);
                assert(rv[b] == g[queue@[b] as int]);
                if a < b {
                    assert(queue@[a] != queue@[b]);
                } else {
                    assert(queue@[b] != queue@[a]);
                }
            }
        }
        r
    }

    /// All ancestors of `id`: the units reached by following references
    /// transitively, excluding `id` itself, each once.
    pub fn ancestors(&self, id: &str) -> (r: Vec<&SemanticUnit>)
        ensures
            is_traversal(self@, true, id@, refs_view(r@)),
    {
        self.bfs(id, true)
    }

    /// All descendants of `id`: the units that reference `id`, transitively,
    /// excluding `id` itself, each once.
    pub fn descendants(&self, id: &str) -> (r: Vec<&SemanticUnit>)
        ensures
            is_traversal(self@, false, id@, refs_view(r@)),
    {
        self.bfs(id, false)
    }

    /// The connected subgraph containing `id`: the unit itself (if present),
    /// its ancestors and its descendants, in graph order.
    pub fn subgraph(&self, id: &str) -> (r: Graph)
        ensures
            r@ == self@.filter(|u: UnitView| in_subgraph(self@, id@, u)),
    {
        proof {
            use_type_invariant(self);
        }
        let ghost g = self@;
        let anc = self.ancestors(id);
        let desc = self.descendants(id);
        let n = self.units.len();
        let mut keep: Vec<bool> = Vec::new();
        let mut z: usize = 0;
        while z < n
            invariant
                z <= n,
                keep@.len() == z,
                forall|j: int| 0 <= j < z ==> !keep@[j],
            decreases n - z,
        {
            keep.push(false);
            z = z + 1;
        }
        let mut i: usize = 0;
        while i < n
            invariant
                g == self@,
                n == g.len(),
                n == self.units@.len(),
                distinct_ids(g),
                i <= n,
                keep@.len() == n,
                forall|j: int| 0 <= j < i ==> (#[trigger] keep@[j] <==> in_subgraph(g, id@, g[j])),
                is_traversal(g, true, id@, refs_view(anc@)),
                is_traversal(g, false, id@, refs_view(desc@)),
            decreases n - i,
        {
            let uid = self.units[i].id.as_str();
            let mut found = str_eq(uid, id);
            let mut a: usize = 0;
            while a < anc.len() && !found
                invariant
                    g == self@,
                    n == g.len(),
                    i < n,
                    uid@ == g[i as int].id,
                    a <= anc@.len(),
                    found ==> in_subgraph(g, id@, g[i as int]),
                    !found ==> g[i as int].id != id@,
                    !found ==> forall|q: int| 0 <= q < a ==> refs_view(anc@)[q].id != uid@,
                    is_traversal(g, true, id@, refs_view(anc@)),
                decreases anc@.len() - a,
            {
                proof {
                    assert(refs_view(anc@)[a as int] == anc@[a as int]@);
                }
                if str_eq(anc[a].id.as_str(), uid) {
                    proof {
                        assert(reachable(g, true, id@, refs_view(anc@)[a as int].id));
                    }
                    found = true;
                }
                a = a + 1;
            }
            let mut d: usize = 0;
            while d < desc.len() && !found
                invariant
                    g == self@,
                    n == g.len(),
                    i < n,
                    uid@ == g[i as int].id,
                    d <= desc@.len(),
                    found ==> in_subgraph(g, id@, g[i as int]),
                    !found ==> g[i as int].id != id@,
                    !found ==> forall|q: int| 0 <= q < anc@.len() ==> refs_view(anc@)[q].id != uid@,
                    !found ==> forall|q: int| 0 <= q < d ==> refs_view(desc@)[q].id != uid@,
                    is_traversal(g, false, id@, refs_view(desc@)),
                decreases desc@.len() - d,
            {
                proof {
                    assert(refs_view(desc@)[d as int] == desc@[d as int]@);
                }
                if str_eq(desc[d].id.as_str(), uid) {
                    proof {
                        assert(reachable(g, false, id@, refs_view(desc@)[d as int].id));
                    }
                    found = true;
                }
                d = d + 1;
            }
            proof {
                if !found {
                    if reachable(g, true, id@, g[i as int].id) {
                        let k = choose|k: int|
                            0 <= k < refs_view(anc@).len() && #[trigger] refs_view(anc@)[k].id
                                == g[i as int].id;
                        assert(refs_view(anc@)[k].id != uid@);
                    }
                    if reachable(g, false, id@, g[i as int].id) {
                        let k = choose|k: int|
                            0 <= k < refs_view(desc@).len() && #[trigger] refs_view(desc@)[k].id
                                == g[i as int].id;
                        assert(refs_view(desc@)[k].id != uid@);
                    }
                }
            }
            keep.set(i, found);
            i = i + 1;
        }
        let mut out = Graph::new();
        let mut t: usize = 0;
        while t < n
            invariant
                g == self@,
                g == self.units@.map_values(|u: SemanticUnit| u@),
                n == g.len(),
                distinct_ids(g),
                t <= n,
                keep@.len() == n,
                forall|j: int| 0 <= j < n ==> (#[trigger] keep@[j] <==> in_subgraph(g, id@, g[j])),
                out@ == g.take(t as int).filter(|u: UnitView| in_subgraph(g, id@, u)),
            decreases n - t,
        {
            proof {
                reveal_with_fuel(Seq::filter, 1);
                assert(g.take(t as int + 1).drop_last() =~= g.take(t as int));
            }
            if keep[t] {
                let ghost before = out@;
                proof {
                    // The unit's id is not yet present: ids are distinct and
                    // `out` holds only units of earlier positions.
                    lemma_filter_take_ids(g, id@, t as int);
                }
                out.add(self.units[t].duplicate());
                proof {
                    assert(!has_id(before, g[t as int].id));
                    assert(out@ =~= before.push(g[t as int]));
                }
            }
            proof {
                assert(out@ =~= g.take(t as int + 1).filter(|u: UnitView| in_subgraph(g, id@, u)));
            }
            t = t + 1;
        }
        proof {
            assert(g.take(n as int) =~= g);
        }
        out
    }
}

/// The units kept from the first `t` positions of a graph with distinct ids
/// do not include the id at position `t`.
proof fn lemma_filter_take_ids(g: Seq<UnitView>, id: Seq<char>, t: int)
    requires
        distinct_ids(g),
        0 <= t < g.len(),
    ensures
        !has_id(g.take(t).filter(|u: UnitView| in_subgraph(g, id, u)), g[t].id),
    decreases t,
{
    let f = g.take(t).filter(|u: UnitView| in_subgraph(g, id, u));
    if has_id(f, g[t].id) {
        let j = choose|j: int| 0 <= j < f.len() && #[trigger] f[j].id == g[t].id;
        assert(f.contains(f[j]));
        g.take(t).lemma_filter_contains_rev(|u: UnitView| in_subgraph(g, id, u), f[j]);
        let k = choose|k: int| 0 <= k < g.take(t).len() && g.take(t)[k] == f[j];
        assert(g[k].id == g[t].id);
    }
}

/// Mapping a sequence with one more element appends the image of that element.
proof fn lemma_map_push<A, B>(s: Seq<A>, x: A, f: spec_fn(A) -> B)
    ensures
        s.push(x).map_values(f) == s.map_values(f).push(f(x)),
{
    assert(s.push(x).map_values(f) =~= s.map_values(f).push(f(x)));
}

/// A sequence of distinct positions below `n` has at most `n` elements.
proof fn lemma_distinct_bounded(q: Seq<usize>, n: usize)
    requires
        forall|k: int| 0 <= k < q.len() ==> #[trigger] q[k] < n,
        forall|a: int, b: int| 0 <= a < b < q.len() ==> #[trigger] q[a] != #[trigger] q[b],
    ensures
        q.len() <= n,
{
    let qi = q.map_values(|x: usize| x as int);
    assert forall|a: int, b: int| 0 <= a < qi.len() && 0 <= b < qi.len() && a != b implies qi[a] != qi[b] by {
        if a < b {
            assert(q[a] != q[b]);
        } else {
            assert(q[b] != q[a]);
        }
    }
    assert(qi.no_duplicates());
    qi.unique_seq_to_set();
    let r = vstd::set_lib::set_int_range(0, n as int);
    vstd::set_lib::lemma_int_range(0, n as int);
    assert forall|x: int| qi.to_set().contains(x) implies r.contains(x) by {
        let k = choose|k: int| 0 <= k < qi.len() && qi[k] == x;
        assert(q[k] < n);
    }
    vstd::set_lib::lemma_len_subset(qi.to_set(), r);
}

/// Enqueuing an unvisited position keeps the queue distinct and bounded and
/// keeps "visited" meaning "queued or the start".
proof fn lemma_push_queue(
    old_q: Seq<usize>,
    old_v: Seq<bool>,
    q: Seq<usize>,
    v: Seq<bool>,
    j: usize,
    si: Option<usize>,
    n: usize,
)
    requires
        j < n,
        old_v.len() == n,
        !old_v[j as int],
        q == old_q.push(j),
        v == old_v.update(j as int, true),
        forall|k: int| 0 <= k < old_q.len() ==> #[trigger] old_q[k] < n,
        forall|a: int, b: int| 0 <= a < b < old_q.len() ==> #[trigger] old_q[a] != #[trigger] old_q[b],
        forall|jj: int|
            0 <= jj < n ==> (#[trigger] old_v[jj] <==> (old_q.contains(jj as usize) || si == Some(jj as usize))),
    ensures
        forall|k: int| 0 <= k < q.len() ==> #[trigger] q[k] < n,
        forall|a: int, b: int| 0 <= a < b < q.len() ==> #[trigger] q[a] != #[trigger] q[b],
        forall|jj: int|
            0 <= jj < n ==> (#[trigger] v[jj] <==> (q.contains(jj as usize) || si == Some(jj as usize))),
        q.len() <= n,
        q[q.len() - 1] == j,
        forall|k: int| 0 <= k < old_q.len() ==> #[trigger] q[k] == old_q[k],
{
    assert forall|a: int, b: int| 0 <= a < b < q.len() implies #[trigger] q[a] != #[trigger] q[b] by {
        if b == q.len() - 1 {
            if q[a] == j {
                assert(old_q[a] == j);
                assert(old_q.contains(j));
            }
        } else {
            assert(old_q[a] != old_q[b]);
        }
    }
    assert forall|jj: int| 0 <= jj < n implies (#[trigger] v[jj] <==> (q.contains(jj as usize) || si == Some(jj as usize))) by {
        if jj == j {
            assert(q[q.len() - 1] == j);
        } else {
            if q.contains(jj as usize) {
                let k = choose|k: int| 0 <= k < q.len() && q[k] == jj as usize;
                assert(k < old_q.len());
                assert(old_q[k] == jj as usize);
            }
            if old_q.contains(jj as usize) {
                let k = choose|k: int| 0 <= k < old_q.len() && old_q[k] == jj as usize;
                assert(q[k] == jj as usize);
            }
        }
    }
    lemma_distinct_bounded(q, n);
}

} // verus!
