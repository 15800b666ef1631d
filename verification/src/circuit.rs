//! The circuit evaluator: starting one step out of the battery's plus side,
//! a directional traversal follows each component's wiring — and crosses the
//! P/N junction only from `P` into `N` — until it either returns into the
//! battery's minus side having passed a lamp (solved) or runs out of new
//! traversal states (unsolved). A set of visited states keeps the search
//! finite on cyclic wiring.

use vstd::prelude::*;

use vstd::arithmetic::div_mod::lemma_fundamental_div_mod_converse;
use vstd::arithmetic::mul::lemma_mul_inequality;
use vstd::set_lib::lemma_int_range;
use vstd::set_lib::lemma_len_subset;
use vstd::set_lib::set_int_range;

use crate::board::Board;
use crate::model::GridModel;
use crate::tile::Kind;
use crate::tile::Side;
use crate::tile::Tile;

verus! {

broadcast use vstd::seq_lib::lemma_seq_contains_after_push;

/// One state of the circuit traversal: the cell the current sits on, the
/// cell it came from, the kind of the tile it crossed there, and whether a
/// lamp has been passed on the way. The same cell may be revisited under a
/// different previous context, so all four parts belong to the state.
#[derive(Clone, Copy, Debug, PartialEq, Eq, Structural)]
pub struct TraversalState {
    pub x: usize,
    pub y: usize,
    pub px: usize,
    pub py: usize,
    pub pk: Kind,
    pub lamp: bool,
}

/// A traversal state over in-bounds cells.
pub open spec fn state_in_dom(m: GridModel, s: TraversalState) -> bool {
    m.in_bounds(s.x as int, s.y as int) && m.in_bounds(s.px as int, s.py as int)
}

/// The in-bounds neighbour of `(x, y)` on side `s`, if any.
pub open spec fn spec_neighbor(m: GridModel, x: int, y: int, s: Side) -> Option<(int, int)> {
    let nx = x + s.spec_dx();
    let ny = y + s.spec_dy();
    if m.in_bounds(nx, ny) {
        Some((nx, ny))
    } else {
        None
    }
}

/// Whether the traversal entered the cell of `s` through `side`: the
/// neighbour on that side is exactly the previous cell.
pub open spec fn entry_matches(s: TraversalState, side: Side) -> bool {
    s.x + side.spec_dx() == s.px as int && s.y + side.spec_dy() == s.py as int
}

/// `t` is the state one step onward from `s` through `side`, which must
/// stay in bounds; `t` records the cell of `s` as previous, with kind `k`
/// and lamp flag `lamp`.
pub open spec fn succ_via(
    m: GridModel,
    s: TraversalState,
    side: Side,
    k: Kind,
    lamp: bool,
    t: TraversalState,
) -> bool {
    &&& m.in_bounds(s.x + side.spec_dx(), s.y + side.spec_dy())
    &&& t.x == s.x + side.spec_dx()
    &&& t.y == s.y + side.spec_dy()
    &&& t.px == s.x
    &&& t.py == s.y
    &&& t.pk == k
    &&& t.lamp == lamp
}

/// One step of the directional traversal, from state `s` to state `t`:
/// a lamp or cable passes current onward through its exit only when entered
/// through its entry (a lamp marks the flag on the way); a battery passes
/// nothing onward; `P` fans out into every adjacent `N` tile; `N`, entered
/// from a `P`, fans out into every in-bounds neighbour.
pub open spec fn step(m: GridModel, s: TraversalState, t: TraversalState) -> bool {
    &&& state_in_dom(m, s)
    &&& match m.cell(s.x as int, s.y as int) {
        None => false,
        Some(tile) => match tile {
            Tile::Lamp { entry, exit } => {
                &&& entry_matches(s, entry)
                &&& succ_via(m, s, exit, Kind::Lamp, true, t)
            },
            Tile::Cable { entry, exit } => {
                &&& entry_matches(s, entry)
                &&& succ_via(m, s, exit, Kind::Cable, s.lamp, t)
            },
            Tile::Battery { .. } => false,
            Tile::P => exists|side: Side|
                {
                    &&& #[trigger] succ_via(m, s, side, Kind::P, s.lamp, t)
                    &&& m.cell(s.x + side.spec_dx(), s.y + side.spec_dy()) == Some(Tile::N)
                },
            Tile::N => {
                &&& s.pk == Kind::P
                &&& exists|side: Side| #[trigger] succ_via(m, s, side, Kind::N, s.lamp, t)
            },
        },
    }
}

/// A state that closes the circuit: it sits on the battery cell, arrived
/// through the battery's minus side, and has passed a lamp on the way.
pub open spec fn accepting(m: GridModel, s: TraversalState) -> bool {
    &&& state_in_dom(m, s)
    &&& match m.cell(s.x as int, s.y as int) {
        Some(tile) => {
            &&& tile matches Tile::Battery { plus_side: _, minus_side }
            &&& entry_matches(s, minus_side)
            &&& s.lamp
        },
        None => false,
    }
}

/// A valid traversal trace: it starts at `init` and each link follows `step`.
pub open spec fn trace_ok(m: GridModel, init: TraversalState, tr: Seq<TraversalState>) -> bool {
    &&& tr.len() > 0
    &&& tr[0] == init
    &&& forall|i: int| 0 <= i < tr.len() - 1 ==> step(m, tr[i], #[trigger] tr[i + 1])
}

/// A state the traversal can reach from `init`.
pub open spec fn reachable(m: GridModel, init: TraversalState, s: TraversalState) -> bool {
    exists|tr: Seq<TraversalState>| trace_ok(m, init, tr) && tr.last() == s
}

/// Whether the traversal from `init` closes the circuit: some reachable
/// state returns into the battery's minus terminal with a lamp passed.
pub open spec fn circuit_closes(m: GridModel, init: TraversalState) -> bool {
    exists|s: TraversalState| reachable(m, init, s) && accepting(m, s)
}

/// The traversal's starting point is reachable through the trace of itself.
proof fn lemma_init_reachable(m: GridModel, init: TraversalState)
    ensures
        reachable(m, init, init),
{
    let tr = seq![init];
    assert(trace_ok(m, init, tr));
    assert(tr.last() == init);
}

/// One step extends reachability.
proof fn lemma_step_reachable(
    m: GridModel,
    init: TraversalState,
    s: TraversalState,
    t: TraversalState,
)
    requires
        reachable(m, init, s),
        step(m, s, t),
    ensures
        reachable(m, init, t),
{
    let tr = choose|tr: Seq<TraversalState>| trace_ok(m, init, tr) && tr.last() == s;
    let tr2 = tr.push(t);
    assert forall|i: int| 0 <= i < tr2.len() - 1 implies step(m, tr2[i], #[trigger] tr2[i + 1]) by {
        if i < tr.len() - 1 {
            assert(step(m, tr[i], tr[i + 1]));
        } else {
            assert(tr2[i] == tr.last());
            assert(tr2[i + 1] == t);
        }
    }
    assert(trace_ok(m, init, tr2));
    assert(tr2.last() == t);
}

/// Every state on a valid trace lies in a set that holds the start and is
/// closed under `step`.
proof fn lemma_trace_in_closed(
    m: GridModel,
    init: TraversalState,
    done: Set<TraversalState>,
    tr: Seq<TraversalState>,
)
    requires
        trace_ok(m, init, tr),
        done.contains(init),
        forall|s: TraversalState, t: TraversalState|
            done.contains(s) && #[trigger] step(m, s, t) ==> done.contains(t),
    ensures
        forall|i: int| 0 <= i < tr.len() ==> done.contains(#[trigger] tr[i]),
    decreases tr.len(),
{
    if tr.len() > 1 {
        let head = tr.drop_last();
        assert(trace_ok(m, init, head)) by {
            assert forall|i: int| 0 <= i < head.len() - 1 implies step(
                m,
                head[i],
                #[trigger] head[i + 1],
            ) by {
                assert(step(m, tr[i], tr[i + 1]));
            }
        }
        lemma_trace_in_closed(m, init, done, head);
        assert forall|i: int| 0 <= i < tr.len() implies done.contains(#[trigger] tr[i]) by {
            if i < tr.len() - 1 {
                assert(done.contains(head[i]));
            } else {
                let j = i - 1;
                assert(done.contains(head[j]));
                assert(head[j] == tr[j]);
                assert(step(m, tr[j], tr[j + 1]));
            }
        }
    }
}

/// When a set holds the start, is closed under `step`, and holds no
/// accepting state, the circuit does not close: the search may stop.
proof fn lemma_closed_set_blocks(m: GridModel, init: TraversalState, done: Set<TraversalState>)
    requires
        done.contains(init),
        forall|s: TraversalState, t: TraversalState|
            done.contains(s) && #[trigger] step(m, s, t) ==> done.contains(t),
        forall|s: TraversalState| done.contains(s) ==> !accepting(m, s),
    ensures
        !circuit_closes(m, init),
{
    if circuit_closes(m, init) {
        let s = choose|s: TraversalState| reachable(m, init, s) && accepting(m, s);
        let tr = choose|tr: Seq<TraversalState>| trace_ok(m, init, tr) && tr.last() == s;
        lemma_trace_in_closed(m, init, done, tr);
        assert(done.contains(tr[tr.len() - 1]));
        assert(false);
    }
}

/// Position of a kind among the five tile kinds.
pub open spec fn kind_index(k: Kind) -> int {
    match k {
        Kind::Battery => 0,
        Kind::Lamp => 1,
        Kind::Cable => 2,
        Kind::P => 3,
        Kind::N => 4,
    }
}

/// Inverse of `kind_index`.
pub open spec fn kind_of_index(i: int) -> Kind {
    if i == 0 {
        Kind::Battery
    } else if i == 1 {
        Kind::Lamp
    } else if i == 2 {
        Kind::Cable
    } else if i == 3 {
        Kind::P
    } else {
        Kind::N
    }
}

/// Mixed-radix encoding of a traversal state into a single integer, used
/// only to show that the set of states over a grid is finite.
pub open spec fn encode_state(m: GridModel, s: TraversalState) -> int {
    let w = m.width as int;
    let h = m.height as int;
    let flag: int = if s.lamp {
        1
    } else {
        0
    };
    s.x + w * (s.y + h * (s.px + w * (s.py + h * (kind_index(s.pk) + 5 * flag))))
}

/// Inverse of `encode_state`, peeling one radix at a time.
pub open spec fn decode_state(m: GridModel, i: int) -> TraversalState {
    let w = m.width as int;
    let h = m.height as int;
    let x = i % w;
    let r1 = i / w;
    let y = r1 % h;
    let r2 = r1 / h;
    let px = r2 % w;
    let r3 = r2 / w;
    let py = r3 % h;
    let r4 = r3 / h;
    TraversalState {
        x: x as usize,
        y: y as usize,
        px: px as usize,
        py: py as usize,
        pk: kind_of_index(r4 % 5),
        lamp: r4 / 5 == 1,
    }
}

/// The state space of a grid: all states over in-bounds cells.
pub open spec fn state_dom(m: GridModel) -> Set<TraversalState> {
    Set::new(|s: TraversalState| state_in_dom(m, s))
}

/// Decoding its encoding restores a state of the domain, and the encoding
/// stays below the product of the radixes.
proof fn lemma_decode_encode(m: GridModel, s: TraversalState)
    requires
        m.wf(),
        state_in_dom(m, s),
    ensures
        0 <= encode_state(m, s) < 10 * (m.width * m.height * m.width * m.height),
        decode_state(m, encode_state(m, s)) == s,
{
    let w = m.width as int;
    let h = m.height as int;
    let flag: int = if s.lamp {
        1
    } else {
        0
    };
    let d4 = kind_index(s.pk) + 5 * flag;
    let d3 = s.py + h * d4;
    let d2 = s.px + w * d3;
    let d1 = s.y + h * d2;
    let e = s.x + w * d1;

    assert(0 <= d4 < 10);
    assert(0 <= d3 < h * 10) by {
        lemma_mul_inequality(d4, 9, h);
        assert(h * d4 == d4 * h) by (nonlinear_arith);
        assert(h * 10 == 9 * h + h) by (nonlinear_arith);
    }
    assert(0 <= d2 < w * (h * 10)) by {
        lemma_mul_inequality(d3, h * 10 - 1, w);
        assert(w * d3 == d3 * w) by (nonlinear_arith);
        assert(w * (h * 10) == (h * 10 - 1) * w + w) by (nonlinear_arith);
        assert(0 <= w * d3) by (nonlinear_arith)
            requires
                w >= 0,
                d3 >= 0,
        ;
    }
    assert(0 <= d1 < h * (w * (h * 10))) by {
        lemma_mul_inequality(d2, w * (h * 10) - 1, h);
        assert(h * d2 == d2 * h) by (nonlinear_arith);
        assert(h * (w * (h * 10)) == (w * (h * 10) - 1) * h + h) by (nonlinear_arith);
        assert(0 <= h * d2) by (nonlinear_arith)
            requires
                h >= 0,
                d2 >= 0,
        ;
    }
    assert(0 <= e < w * (h * (w * (h * 10)))) by {
        lemma_mul_inequality(d1, h * (w * (h * 10)) - 1, w);
        assert(w * d1 == d1 * w) by (nonlinear_arith);
        assert(w * (h * (w * (h * 10))) == (h * (w * (h * 10)) - 1) * w + w) by (nonlinear_arith);
        assert(0 <= w * d1) by (nonlinear_arith)
            requires
                w >= 0,
                d1 >= 0,
        ;
    }
    assert(w * (h * (w * (h * 10))) == 10 * (m.width * m.height * m.width * m.height))
        by (nonlinear_arith)
        requires
            w == m.width as int,
            h == m.height as int,
    ;

    assert(w * d1 == d1 * w) by (nonlinear_arith);
    assert(h * d2 == d2 * h) by (nonlinear_arith);
    assert(w * d3 == d3 * w) by (nonlinear_arith);
    assert(h * d4 == d4 * h) by (nonlinear_arith);
    assert(0 <= s.x < w);
    assert(e == d1 * w + s.x);
    lemma_fundamental_div_mod_converse(e, w, d1, s.x as int);
    assert(0 <= s.y < h);
    assert(d1 == d2 * h + s.y);
    lemma_fundamental_div_mod_converse(d1, h, d2, s.y as int);
    assert(0 <= s.px < w);
    assert(d2 == d3 * w + s.px);
    lemma_fundamental_div_mod_converse(d2, w, d3, s.px as int);
    assert(0 <= s.py < h);
    assert(d3 == d4 * h + s.py);
    lemma_fundamental_div_mod_converse(d3, h, d4, s.py as int);
    assert(0 <= kind_index(s.pk) < 5);
    assert(d4 == flag * 5 + kind_index(s.pk));
    lemma_fundamental_div_mod_converse(d4, 5, flag, kind_index(s.pk));
}

impl Board {
    /// The in-bounds neighbour of `(x, y)` on `side`, if any.
    fn neighbor(&self, x: usize, y: usize, side: Side) -> (r: Option<(usize, usize)>)
        requires
            self.wf(),
            self@.in_bounds(x as int, y as int),
        ensures
            r is Some <==> spec_neighbor(self@, x as int, y as int, side) is Some,
            r matches Some(p) ==> spec_neighbor(self@, x as int, y as int, side) == Some(
                (p.0 as int, p.1 as int),
            ),
    {
        let w = self.width();
        let h = self.height();
        match side {
            Side::Left => if x > 0 {
                Some((x - 1, y))
            } else {
                None
            },
            Side::Right => if x + 1 < w {
                Some((x + 1, y))
            } else {
                None
            },
            Side::Top => if y > 0 {
                Some((x, y - 1))
            } else {
                None
            },
            Side::Bottom => if y + 1 < h {
                Some((x, y + 1))
            } else {
                None
            },
        }
    }

    /// Whether the traversal entered the cell of `s` through `side`.
    fn entry_ok(&self, s: TraversalState, side: Side) -> (r: bool)
        requires
            self.wf(),
            state_in_dom(self@, s),
        ensures
            r == entry_matches(s, side),
    {
        match self.neighbor(s.x, s.y, side) {
            Some((nx, ny)) => nx == s.px && ny == s.py,
            None => false,
        }
    }

    /// Pushes the successor of `s` through `side` for a `P` tile at the
    /// cell of `s`: the walk fans out of `P` only into an adjacent `N`.
    fn push_junction_p(&self, stack: &mut Vec<TraversalState>, s: TraversalState, side: Side)
        requires
            self.wf(),
            state_in_dom(self@, s),
            self@.cell(s.x as int, s.y as int) == Some(Tile::P),
        ensures
            forall|t: TraversalState| #[trigger]
                final(stack)@.contains(t) ==> old(stack)@.contains(t) || step(self@, s, t),
            forall|t: TraversalState| #[trigger]
                old(stack)@.contains(t) ==> final(stack)@.contains(t),
            ({
                let nx = s.x + side.spec_dx();
                let ny = s.y + side.spec_dy();
                self@.in_bounds(nx, ny) && self@.cell(nx, ny) == Some(Tile::N)
                    ==> final(stack)@.contains(
                    (TraversalState {
                        x: nx as usize,
                        y: ny as usize,
                        px: s.x,
                        py: s.y,
                        pk: Kind::P,
                        lamp: s.lamp,
                    }),
                )
            }),
    {
        if let Some((nx, ny)) = self.neighbor(s.x, s.y, side) {
            if let Some(Some(Tile::N)) = self.get(nx, ny) {
                let t = TraversalState {
                    x: nx,
                    y: ny,
                    px: s.x,
                    py: s.y,
                    pk: Kind::P,
                    lamp: s.lamp,
                };
                stack.push(t);
                proof {
                    assert(succ_via(self@, s, side, Kind::P, s.lamp, t));
                    assert(step(self@, s, t));
                }
            }
        }
    }

    /// Pushes the successor of `s` through `side` for an `N` tile at the
    /// cell of `s`, entered from a `P`: the walk fans out everywhere.
    fn push_junction_n(&self, stack: &mut Vec<TraversalState>, s: TraversalState, side: Side)
        requires
            self.wf(),
            state_in_dom(self@, s),
            self@.cell(s.x as int, s.y as int) == Some(Tile::N),
            s.pk == Kind::P,
        ensures
            forall|t: TraversalState| #[trigger]
                final(stack)@.contains(t) ==> old(stack)@.contains(t) || step(self@, s, t),
            forall|t: TraversalState| #[trigger]
                old(stack)@.contains(t) ==> final(stack)@.contains(t),
            ({
                let nx = s.x + side.spec_dx();
                let ny = s.y + side.spec_dy();
                self@.in_bounds(nx, ny) ==> final(stack)@.contains(
                    (TraversalState {
                        x: nx as usize,
                        y: ny as usize,
                        px: s.x,
                        py: s.y,
                        pk: Kind::N,
                        lamp: s.lamp,
                    }),
                )
            }),
    {
        if let Some((nx, ny)) = self.neighbor(s.x, s.y, side) {
            let t = TraversalState {
                x: nx,
                y: ny,
                px: s.x,
                py: s.y,
                pk: Kind::N,
                lamp: s.lamp,
            };
            stack.push(t);
            proof {
                assert(succ_via(self@, s, side, Kind::N, s.lamp, t));
                assert(step(self@, s, t));
            }
        }
    }
}

/// Linear scan for a traversal state among the visited ones.
fn contains_state(v: &Vec<TraversalState>, s: &TraversalState) -> (r: bool)
    ensures
        r == v@.contains(*s),
{
    let mut i: usize = 0;
    while i < v.len()
        invariant
            i <= v@.len(),
            forall|j: int| 0 <= j < i ==> v@[j] != *s,
        decreases v@.len() - i,
    {
        if v[i] == *s {
            return true;
        }
        i += 1;
    }
    false
}

/// The state space of a well-formed grid is finite.
proof fn lemma_state_dom_finite(m: GridModel)
    requires
        m.wf(),
    ensures
        state_dom(m).finite(),
{
    if m.width == 0 || m.height == 0 {
        assert(state_dom(m) =~= Set::<TraversalState>::empty());
    } else {
        let cap = 10 * (m.width * m.height * m.width * m.height) as int;
        let f = |i: int| decode_state(m, i);
        let range = set_int_range(0, cap);
        let image = range.map(f);
        lemma_int_range(0, cap);
        range.lemma_map_finite(f);
        assert forall|s: TraversalState| state_dom(m).contains(s) implies image.contains(s) by {
            lemma_decode_encode(m, s);
            let e = encode_state(m, s);
            assert(range.contains(e) && s == f(e));
        }
        lemma_len_subset(state_dom(m), image);
    }
}

impl Board {
    /// Worklist form of the traversal: explores every state reachable from
    /// `init` and reports whether one of them closes the circuit. The
    /// visited set keys on the whole state — cell, previous cell, previous
    /// kind and lamp flag — so a cell may be re-entered under a different
    /// context, while a repeated state is pruned and the search stays
    /// finite on cyclic wiring.
    fn search(&self, init: TraversalState) -> (r: bool)
        requires
            self.wf(),
            state_in_dom(self@, init),
        ensures
            r == circuit_closes(self@, init),
    {
        let ghost m = self@;
        proof {
            lemma_state_dom_finite(m);
            lemma_init_reachable(m, init);
        }
        let mut stack: Vec<TraversalState> = Vec::new();
        stack.push(init);
        let mut visited: Vec<TraversalState> = Vec::new();
        let ghost mut vset = Set::<TraversalState>::empty();
        proof {
            lemma_len_subset(vset, state_dom(m));
        }
        while stack.len() > 0
            invariant
                self.wf(),
                m == self@,
                state_dom(m).finite(),
                state_in_dom(m, init),
                vset.subset_of(state_dom(m)),
                vset.finite(),
                vset.len() <= state_dom(m).len(),
                forall|s: TraversalState| visited@.contains(s) == vset.contains(s),
                forall|s: TraversalState| #[trigger]
                    stack@.contains(s) ==> reachable(m, init, s) && state_in_dom(m, s),
                vset.contains(init) || stack@.contains(init),
                forall|s: TraversalState| #[trigger] vset.contains(s) ==> !accepting(m, s),
                forall|s: TraversalState, t: TraversalState|
                    vset.contains(s) && #[trigger] step(m, s, t) ==> vset.contains(t)
                        || stack@.contains(t),
            decreases state_dom(m).len() - vset.len(), stack@.len(),
        {
            let ghost stack0 = stack@;
            let s = stack.pop().unwrap();
            let ghost stack1 = stack@;
            proof {
                assert(stack0.contains(s)) by {
                    assert(stack0[stack0.len() - 1] == s);
                }
                assert forall|t: TraversalState| #[trigger]
                    stack1.contains(t) implies stack0.contains(t) by {
                    let j = choose|j: int| 0 <= j < stack1.len() && stack1[j] == t;
                    assert(stack0[j] == t);
                }
            }
            if !contains_state(&visited, &s) {
                visited.push(s);
                proof {
                    vset = vset.insert(s);
                    lemma_len_subset(vset, state_dom(m));
                }
                let cell = self.get(s.x, s.y).unwrap();
                match cell {
                    None => {
                        proof {
                            assert(forall|t: TraversalState| !step(m, s, t));
                            assert(!accepting(m, s));
                        }
                    },
                    Some(tile) => match tile {
                        Tile::Lamp { entry, exit } => {
                            if self.entry_ok(s, entry) {
                                if let Some((nx, ny)) = self.neighbor(s.x, s.y, exit) {
                                    let t = TraversalState {
                                        x: nx,
                                        y: ny,
                                        px: s.x,
                                        py: s.y,
                                        pk: Kind::Lamp,
                                        lamp: true,
                                    };
                                    stack.push(t);
                                    proof {
                                        assert(succ_via(m, s, exit, Kind::Lamp, true, t));
                                        assert(step(m, s, t));
                                        lemma_step_reachable(m, init, s, t);
                                        assert forall|u: TraversalState| #[trigger]
                                            step(m, s, u) implies stack@.contains(u) by {
                                            assert(u == t);
                                        }
                                    }
                                } else {
                                    proof {
                                        assert(forall|t: TraversalState| !step(m, s, t));
                                    }
                                }
                            } else {
                                proof {
                                    assert(forall|t: TraversalState| !step(m, s, t));
                                }
                            }
                            proof {
                                assert(!accepting(m, s));
                            }
                        },
                        Tile::Cable { entry, exit } => {
                            if self.entry_ok(s, entry) {
                                if let Some((nx, ny)) = self.neighbor(s.x, s.y, exit) {
                                    let t = TraversalState {
                                        x: nx,
                                        y: ny,
                                        px: s.x,
                                        py: s.y,
                                        pk: Kind::Cable,
                                        lamp: s.lamp,
                                    };
                                    stack.push(t);
                                    proof {
                                        assert(succ_via(m, s, exit, Kind::Cable, s.lamp, t));
                                        assert(step(m, s, t));
                                        lemma_step_reachable(m, init, s, t);
                                        assert forall|u: TraversalState| #[trigger]
                                            step(m, s, u) implies stack@.contains(u) by {
                                            assert(u == t);
                                        }
                                    }
                                } else {
                                    proof {
                                        assert(forall|t: TraversalState| !step(m, s, t));
                                    }
                                }
                            } else {
                                proof {
                                    assert(forall|t: TraversalState| !step(m, s, t));
                                }
                            }
                            proof {
                                assert(!accepting(m, s));
                            }
                        },
                        Tile::Battery { plus_side: _, minus_side } => {
                            if self.entry_ok(s, minus_side) {
                                if s.lamp {
                                    proof {
                                        assert(accepting(m, s));
                                        assert(circuit_closes(m, init));
                                    }
                                    return true;
                                }
                            }
                            proof {
                                assert(!accepting(m, s));
                                assert(forall|t: TraversalState| !step(m, s, t));
                            }
                        },
                        Tile::P => {
                            self.push_junction_p(&mut stack, s, Side::Left);
                            let ghost g1 = stack@;
                            self.push_junction_p(&mut stack, s, Side::Right);
                            let ghost g2 = stack@;
                            self.push_junction_p(&mut stack, s, Side::Top);
                            let ghost g3 = stack@;
                            self.push_junction_p(&mut stack, s, Side::Bottom);
                            proof {
                                assert forall|t: TraversalState| #[trigger]
                                    step(m, s, t) implies stack@.contains(t) by {
                                    let side = choose|side: Side|
                                        {
                                            &&& #[trigger] succ_via(m, s, side, Kind::P, s.lamp, t)
                                            &&& m.cell(
                                                s.x + side.spec_dx(),
                                                s.y + side.spec_dy(),
                                            ) == Some(Tile::N)
                                        };
                                    match side {
                                        Side::Left => assert(g1.contains(t)),
                                        Side::Right => assert(g2.contains(t)),
                                        Side::Top => assert(g3.contains(t)),
                                        Side::Bottom => assert(stack@.contains(t)),
                                    }
                                }
                                assert(!accepting(m, s));
                            }
                        },
                        Tile::N => {
                            if s.pk == Kind::P {
                                self.push_junction_n(&mut stack, s, Side::Left);
                                let ghost g1 = stack@;
                                self.push_junction_n(&mut stack, s, Side::Right);
                                let ghost g2 = stack@;
                                self.push_junction_n(&mut stack, s, Side::Top);
                                let ghost g3 = stack@;
                                self.push_junction_n(&mut stack, s, Side::Bottom);
                                proof {
                                    assert forall|t: TraversalState| #[trigger]
                                        step(m, s, t) implies stack@.contains(t) by {
                                        let side = choose|side: Side| #[trigger]
                                            succ_via(m, s, side, Kind::N, s.lamp, t);
                                        match side {
                                            Side::Left => assert(g1.contains(t)),
                                            Side::Right => assert(g2.contains(t)),
                                            Side::Top => assert(g3.contains(t)),
                                            Side::Bottom => assert(stack@.contains(t)),
                                        }
                                    }
                                }
                            } else {
                                proof {
                                    assert(forall|t: TraversalState| !step(m, s, t));
                                }
                            }
                            proof {
                                assert(!accepting(m, s));
                            }
                        },
                    },
                }
                proof {
                    assert(vset.contains(init) || stack@.contains(init)) by {
                        if !vset.contains(init) && stack0.contains(init) {
                            let j = choose|j: int| 0 <= j < stack0.len() && stack0[j] == init;
                            assert(j < stack0.len() - 1);
                            assert(stack1[j] == init);
                            assert(stack1.contains(init));
                        }
                    }
                    assert forall|t: TraversalState| #[trigger]
                        stack@.contains(t) implies reachable(m, init, t) && state_in_dom(
                        m,
                        t,
                    ) by {
                        if !stack1.contains(t) {
                            assert(step(m, s, t));
                            assert(reachable(m, init, s));
                            lemma_step_reachable(m, init, s, t);
                        }
                    }
                    assert forall|a: TraversalState, t: TraversalState|
                        vset.contains(a) && #[trigger] step(m, a, t) implies vset.contains(t)
                            || stack@.contains(t) by {
                        if a == s {
                            assert(stack@.contains(t));
                        } else {
                            assert(vset.remove(s).contains(a));
                            if stack0.contains(t) && !vset.contains(t) {
                                if t == s {
                                    assert(vset.contains(t));
                                } else {
                                    let j = choose|j: int|
                                        0 <= j < stack0.len() && stack0[j] == t;
                                    assert(j < stack0.len() - 1);
                                    assert(stack1[j] == t);
                                    assert(stack1.contains(t));
                                }
                            }
                        }
                    }
                }
            } else {
                proof {
                    assert(vset.contains(s));
                    assert(vset.contains(init) || stack@.contains(init)) by {
                        if !vset.contains(init) && stack0.contains(init) {
                            let j = choose|j: int| 0 <= j < stack0.len() && stack0[j] == init;
                            assert(j < stack0.len() - 1);
                            assert(stack1[j] == init);
                            assert(stack1.contains(init));
                        }
                    }
                    assert forall|a: TraversalState, t: TraversalState|
                        vset.contains(a) && #[trigger] step(m, a, t) implies vset.contains(t)
                            || stack@.contains(t) by {
                        if stack0.contains(t) && !vset.contains(t) {
                            let j = choose|j: int| 0 <= j < stack0.len() && stack0[j] == t;
                            assert(j < stack0.len() - 1);
                            assert(stack1[j] == t);
                        }
                    }
                }
            }
        }
        proof {
            assert(vset.contains(init));
            assert forall|a: TraversalState, t: TraversalState|
                vset.contains(a) && #[trigger] step(m, a, t) implies vset.contains(t) by {
                assert(!stack@.contains(t));
            }
            lemma_closed_set_blocks(m, init, vset);
        }
        false
    }
}

/// The first battery cell in the scan order of `is_solved` — column by
/// column, and top to bottom within a column — if any.
pub open spec fn first_battery_from(m: GridModel, x: nat, y: nat) -> Option<(nat, nat)>
    decreases m.width - x, m.height - y,
{
    if x >= m.width {
        None
    } else if y >= m.height {
        first_battery_from(m, (x + 1) as nat, 0)
    } else {
        match m.cell(x as int, y as int) {
            Some(Tile::Battery { .. }) => Some((x, y)),
            _ => first_battery_from(m, x, (y + 1) as nat),
        }
    }
}

/// The traversal's starting state for the battery at `(bx, by)`: one step
/// out of the plus side, with the battery cell as previous and no lamp
/// passed. `None` when the plus side points off the grid — the current has
/// nowhere to go and the puzzle is unsolved.
pub open spec fn init_state(m: GridModel, bx: nat, by: nat) -> Option<TraversalState> {
    match m.cell(bx as int, by as int) {
        Some(Tile::Battery { plus_side, minus_side: _ }) => {
            let nx = bx + plus_side.spec_dx();
            let ny = by + plus_side.spec_dy();
            if m.in_bounds(nx, ny) {
                Some(
                    TraversalState {
                        x: nx as usize,
                        y: ny as usize,
                        px: bx as usize,
                        py: by as usize,
                        pk: Kind::Battery,
                        lamp: false,
                    },
                )
            } else {
                None
            }
        },
        _ => None,
    }
}

/// What `is_solved` returns: false without a battery; otherwise the
/// traversal starts one step out of the first battery's plus side and must
/// close the loop back into its minus side having passed a lamp.
pub open spec fn spec_is_solved(m: GridModel) -> bool {
    match first_battery_from(m, 0, 0) {
        None => false,
        Some(b) => match init_state(m, b.0, b.1) {
            None => false,
            Some(init) => circuit_closes(m, init),
        },
    }
}

impl Board {
    /// Whether the grid forms a complete, correctly oriented circuit: the
    /// first battery's plus side feeds a directional traversal that must
    /// pass a lamp and return into the battery's minus side. A grid
    /// without a battery is never solved.
    pub fn is_solved(&self) -> (r: bool)
        requires
            self.wf(),
        ensures
            r == spec_is_solved(self@),
    {
        let ghost m = self@;
        let w = self.width();
        let h = self.height();
        let mut x: usize = 0;
        while x < w
            invariant
                self.wf(),
                m == self@,
                w as nat == m.width,
                h as nat == m.height,
                x <= w,
                first_battery_from(m, 0, 0) == first_battery_from(m, x as nat, 0),
            decreases w - x,
        {
            let mut y: usize = 0;
            while y < h
                invariant
                    self.wf(),
                    m == self@,
                    w as nat == m.width,
                    h as nat == m.height,
                    x < w,
                    y <= h,
                    first_battery_from(m, 0, 0) == first_battery_from(m, x as nat, y as nat),
                decreases h - y,
            {
                match self.get(x, y).unwrap() {
                    Some(Tile::Battery { plus_side, minus_side: _ }) => {
                        proof {
                            assert(first_battery_from(m, x as nat, y as nat) == Some(
                                (x as nat, y as nat),
                            ));
                        }
                        match self.neighbor(x, y, plus_side) {
                            Some((sx, sy)) => {
                                let init = TraversalState {
                                    x: sx,
                                    y: sy,
                                    px: x,
                                    py: y,
                                    pk: Kind::Battery,
                                    lamp: false,
                                };
                                proof {
                                    assert(init_state(m, x as nat, y as nat) == Some(init));
                                    assert(state_in_dom(m, init));
                                }
                                return self.search(init);
                            },
                            None => {
                                proof {
                                    assert(init_state(m, x as nat, y as nat) is None);
                                }
                                return false;
                            },
                        }
                    },
                    _ => {
                        y += 1;
                    },
                }
            }
            x += 1;
        }
        false
    }
}

/// A grid without a battery is never solved.
pub proof fn lemma_no_battery_unsolved(m: GridModel)
    requires
        m.wf(),
        !m.has_battery(),
    ensures
        !spec_is_solved(m),
{
    lemma_no_battery_scan(m, 0, 0);
}

/// The battery scan of a battery-free grid finds nothing, wherever it
/// starts.
proof fn lemma_no_battery_scan(m: GridModel, x: nat, y: nat)
    requires
        m.wf(),
        !m.has_battery(),
    ensures
        first_battery_from(m, x, y) is None,
    decreases m.width - x, m.height - y,
{
    if x >= m.width {
    } else if y >= m.height {
        lemma_no_battery_scan(m, (x + 1) as nat, 0);
    } else {
        match m.cell(x as int, y as int) {
            Some(t) => {
                if t is Battery {
                    crate::model::lemma_idx_in_range(m, x as int, y as int);
                    assert(m.cells[m.idx(x as int, y as int)] matches Some(b) && b is Battery);
                    assert(false);
                }
                lemma_no_battery_scan(m, x, (y + 1) as nat);
            },
            None => {
                lemma_no_battery_scan(m, x, (y + 1) as nat);
            },
        }
    }
}

/// Determinism: the circuit evaluator and the move validator are pure
/// functions of the grid contents — equal models give equal answers, so
/// repeated calls on an unchanged grid always agree.
pub proof fn lemma_queries_deterministic(
    m1: GridModel,
    m2: GridModel,
    fx: nat,
    fy: nat,
    tx: nat,
    ty: nat,
)
    requires
        m1 == m2,
    ensures
        spec_is_solved(m1) == spec_is_solved(m2),
        crate::moves::spec_can_move(m1, fx, fy, tx, ty) == crate::moves::spec_can_move(
            m2,
            fx,
            fy,
            tx,
            ty,
        ),
{
}

} // verus!
