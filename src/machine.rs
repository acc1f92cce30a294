use vstd::prelude::*;
use crate::instruction::{Instruction, next_pc};
use crate::node::{Pending, node_after_read, handed_down, lemma_step_outbox, hands_down, deliverable, compute_wants, program_fits, Registers, matured, Location, Node, read_result, same_cell, compute_step, is_direction, opposite_spec, zeroed};
use crate::puzzle::{AnswerStream, NodeType, Puzzle, StreamType, stream_satisfied};

verus! {

/// Number of columns of the grid.
pub const WIDTH: usize = 4;

/// Number of cells of the grid: three rows of `WIDTH`.
pub const GRID_SIZE: usize = 12;

/// Why a grid or a program could not be set up.
#[derive(Clone, Copy, Debug, PartialEq, Eq, Structural)]
pub enum LoadError {
    UnknownStreamType,
    UnknownNodeType,
    LayoutSize,
    NoSuchNode,
    NotComputing,
    AlreadyLoaded,
    UnfitProgram,
}

/// What lies beyond one side of a cell: another cell, or a stream (by its
/// position in the puzzle's stream list).
#[derive(Clone, Copy, Debug, PartialEq, Eq, Structural)]
pub enum Neighbor {
    Cell(usize),
    Stream(usize),
}

/// The grid with its streams, advanced one tick at a time.
pub struct Machine {
    pub puzzle: Puzzle,
    pub nodes: Vec<Node>,
    pub step_count: usize,
}

/// The column and type of each stream: all that decides what a stream is
/// bound to.
pub open spec fn bindings(s: Seq<AnswerStream>) -> Seq<(usize, StreamType)> {
    s.map(|k: int, x: AnswerStream| (x.offset, x.stream_type))
}

pub open spec fn binds(s: (usize, StreamType), col: int, ty: StreamType) -> bool {
    s.0 == col && s.1 == ty
}

/// `r` names the first stream of `s` of type `ty` bound to column `col`, or
/// is `None` when there is none.
pub open spec fn first_bound(s: Seq<(usize, StreamType)>, col: int, ty: StreamType, r: Option<Neighbor>) -> bool {
    match r {
        Some(Neighbor::Stream(k)) => k < s.len() && binds(s[k as int], col, ty)
            && forall|j: int| 0 <= j < k ==> !binds(#[trigger] s[j], col, ty),
        Some(Neighbor::Cell(_)) => false,
        None => forall|j: int| 0 <= j < s.len() ==> !binds(#[trigger] s[j], col, ty),
    }
}

/// `r` is what lies beyond side `loc` of cell `i`: the input stream of its
/// column above the top row, the output stream of its column below the
/// bottom row, nothing off the left and right edges or for a location that
/// is no direction, and otherwise the adjacent cell.
pub open spec fn neighbor_of(s: Seq<(usize, StreamType)>, i: int, loc: Location, r: Option<Neighbor>) -> bool {
    match loc {
        Location::UP => if i < 4 {
            first_bound(s, i, StreamType::STREAM_INPUT, r)
        } else {
            r == Some(Neighbor::Cell((i - 4) as usize))
        },
        Location::DOWN => if i >= 8 {
            first_bound(s, i - 8, StreamType::STREAM_OUTPUT, r)
        } else {
            r == Some(Neighbor::Cell((i + 4) as usize))
        },
        Location::LEFT => if i % 4 == 0 { r.is_none() } else { r == Some(Neighbor::Cell((i - 1) as usize)) },
        Location::RIGHT => if i % 4 == 3 { r.is_none() } else { r == Some(Neighbor::Cell((i + 1) as usize)) },
        _ => r.is_none(),
    }
}

/// Every output stream has received exactly its reference sequence.
pub open spec fn all_satisfied(s: Seq<AnswerStream>) -> bool {
    forall|k: int| 0 <= k < s.len() && (#[trigger] s[k]).stream_type is STREAM_OUTPUT ==> stream_satisfied(s[k])
}

/// The program counter of a computing node.
pub open spec fn pc_of(n: Node) -> usize {
    n->Computing_0.regs.pc
}

/// `b` is `a` with only node and stream contents changed: the layout, the
/// kind, position and program of each node, and each stream's type, column
/// and reference values all stay, and what a stream has received is only
/// added to.
pub open spec fn same_grid(a: Machine, b: Machine) -> bool {
    &&& b.puzzle.layout@ == a.puzzle.layout@
    &&& b.nodes@.len() == a.nodes@.len()
    &&& forall|i: int| 0 <= i < a.nodes@.len() ==> same_cell(#[trigger] a.nodes@[i], b.nodes@[i])
    &&& b.puzzle.streams@.len() == a.puzzle.streams@.len()
    &&& forall|k: int| 0 <= k < a.puzzle.streams@.len() ==> {
        &&& (#[trigger] b.puzzle.streams@[k]).stream_type == a.puzzle.streams@[k].stream_type
        &&& b.puzzle.streams@[k].name@ == a.puzzle.streams@[k].name@
        &&& b.puzzle.streams@[k].offset == a.puzzle.streams@[k].offset
        &&& b.puzzle.streams@[k].values@ == a.puzzle.streams@[k].values@
        &&& a.puzzle.streams@[k].answers@.len() <= b.puzzle.streams@[k].answers@.len()
        &&& a.puzzle.streams@[k].answers@ =~= b.puzzle.streams@[k].answers@.subrange(0, a.puzzle.streams@[k].answers@.len() as int)
    }
}

/// No computing node's program counter differs between `a` and `b`.
pub open spec fn pcs_kept(a: Machine, b: Machine) -> bool {
    forall|i: int| 0 <= i < a.nodes@.len() && (#[trigger] a.nodes@[i]) is Computing ==> pc_of(b.nodes@[i]) == pc_of(a.nodes@[i])
}

/// The registers of a computing node.
pub open spec fn regs_of(n: Node) -> Registers {
    n->Computing_0.regs
}

/// Between `a` and `b`, a computing node's registers either stay or lose
/// their pending write, one made before the current tick, to a reader.
pub open spec fn taken_only(a: Machine, b: Machine) -> bool {
    forall|k: int| 0 <= k < a.nodes@.len() && (#[trigger] a.nodes@[k]) is Computing ==>
        regs_of(b.nodes@[k]) == regs_of(a.nodes@[k])
        || (deliverable_any(regs_of(a.nodes@[k]).outbox)
            && regs_of(b.nodes@[k]) == (Registers { outbox: None, ..regs_of(a.nodes@[k]) }))
}

/// The outbox holds a write that was not made in the current tick.
pub open spec fn deliverable_any(p: Option<Pending>) -> bool {
    match p {
        Some(q) => !q.fresh,
        None => false,
    }
}

/// From registers `start` to `now`, a pending write is either fresh, made
/// into an empty outbox, or the very write of `start` with all registers
/// (accumulator, backup, program counter) as they were.
pub open spec fn held_since(start: Registers, now: Registers) -> bool {
    match now.outbox {
        Some(p) => if p.fresh {
            start.outbox is None
        } else {
            now == start
        },
        None => true,
    }
}

/// The cell that a grid cell of kind `kind` at `i` starts as.
pub open spec fn fresh_node(n: Node, i: int, kind: NodeType) -> bool {
    &&& n.index_of() == i
    &&& n.kind() == kind
    &&& n.wf()
    &&& n matches Node::Computing(c) ==> c.regs == zeroed() && !c.loaded
    &&& n matches Node::Storage(m) ==> m.stack@.len() == 0
}

/// `m` is the grid that `puzzle` sets up before any tick: one fresh node per
/// layout entry and every stream rewound.
pub open spec fn set_up_from(m: Machine, puzzle: Puzzle) -> bool {
    &&& m.wf()
    &&& m.step_count == 0
    &&& m.puzzle.layout@ == puzzle.layout@
    &&& forall|i: int| 0 <= i < GRID_SIZE ==> fresh_node(#[trigger] m.nodes@[i], i, puzzle.layout@[i])
    &&& m.puzzle.streams@.len() == puzzle.streams@.len()
    &&& forall|k: int| 0 <= k < puzzle.streams@.len() ==> {
        &&& (#[trigger] m.puzzle.streams@[k]).stream_type == puzzle.streams@[k].stream_type
        &&& m.puzzle.streams@[k].name@ == puzzle.streams@[k].name@
        &&& m.puzzle.streams@[k].offset == puzzle.streams@[k].offset
        &&& m.puzzle.streams@[k].values@ == puzzle.streams@[k].values@
        &&& m.puzzle.streams@[k].answers@.len() == 0
        &&& m.puzzle.streams@[k].cursor == 0
    }
}

/// What lies beyond side `loc` of cell `i`.
pub open spec fn neighbor(s: Seq<AnswerStream>, i: int, loc: Location) -> Option<Neighbor> {
    choose|r: Option<Neighbor>| neighbor_of(bindings(s), i, loc, r)
}

/// The computing node whose pending write a storage node in cell `i` takes
/// from side `d`: the adjacent cell, when its write is readable toward `i`.
pub open spec fn pull_source(m: Machine, i: int, d: Location) -> Option<usize> {
    match neighbor(m.puzzle.streams@, i, d) {
        Some(Neighbor::Cell(j)) => if m.nodes@[j as int] is Computing
            && deliverable(regs_of(m.nodes@[j as int]).outbox, opposite_spec(d)) {
            Some(j)
        } else {
            None
        },
        _ => None,
    }
}

/// What a storage node in cell `i` takes in from side `d`: nothing, or the
/// one pending value of that neighbour.
pub open spec fn pulled(m: Machine, i: int, d: Location) -> Seq<i32> {
    match pull_source(m, i, d) {
        Some(j) => seq![regs_of(m.nodes@[j as int]).outbox.unwrap().value],
        None => Seq::empty(),
    }
}

/// The output stream that takes, at once, the write of the bottom-row
/// computing node in cell `cell`: the first output stream of its column,
/// when that node holds a write aimed down or at `ANY`.
pub open spec fn output_taker(m: Machine, cell: int) -> Option<usize> {
    match neighbor(m.puzzle.streams@, cell, Location::DOWN) {
        Some(Neighbor::Stream(k)) => if m.nodes@[cell] is Computing && hands_down(regs_of(m.nodes@[cell]).outbox) {
            Some(k)
        } else {
            None
        },
        _ => None,
    }
}

/// The output stream below the bottom-row cell `cell`, if one is bound.
pub open spec fn output_below(m: Machine, cell: int) -> Option<usize> {
    if cell >= 8 {
        match neighbor(m.puzzle.streams@, cell, Location::DOWN) {
            Some(Neighbor::Stream(k)) => Some(k),
            _ => None,
        }
    } else {
        None
    }
}

/// A computing node's registers after its turn: its step, then, when an
/// output stream lies below and the step left a write aimed down or at
/// `ANY`, that write taken at once and the node moved past the instruction
/// that made it.
pub open spec fn turn_result(m: Machine, i: int) -> Registers {
    let c = m.nodes@[i]->Computing_0;
    let after = compute_step(c, step_input(m, i));
    if output_below(m, i) is Some && hands_down(after.outbox) {
        Registers {
            outbox: None,
            retiring: false,
            pc: next_pc(after.pc, c.instructions@.len() as usize),
            ..after
        }
    } else {
        after
    }
}

/// What is left of stream `a` after a node has read from it: an input
/// stream with values left has handed out one more; any other stream is as
/// it was.
pub open spec fn stream_after_read(a: AnswerStream, b: AnswerStream) -> bool {
    if a.stream_type is STREAM_INPUT && a.cursor < a.values@.len() {
        &&& b.stream_type == a.stream_type
        &&& b.name@ == a.name@
        &&& b.offset == a.offset
        &&& b.values@ == a.values@
        &&& b.answers@ == a.answers@
        &&& b.cursor == a.cursor + 1
    } else {
        b == a
    }
}

/// Nothing in the grid has changed from `a` to `b`.
pub open spec fn unchanged(a: Machine, b: Machine) -> bool {
    b.nodes@ == a.nodes@ && b.puzzle.streams@ == a.puzzle.streams@
}

/// What a read of direction `d` by cell `i` does to the grid: the node or
/// input stream beyond that side gives up what it handed out, and nothing
/// else changes.
pub open spec fn read_effect(a: Machine, i: int, d: Location, b: Machine) -> bool {
    match neighbor(a.puzzle.streams@, i, d) {
        Some(Neighbor::Cell(j)) => {
            &&& node_after_read(a.nodes@[j as int], opposite_spec(d), b.nodes@[j as int])
            &&& forall|k: int| 0 <= k < a.nodes@.len() && k != j ==> #[trigger] b.nodes@[k] == a.nodes@[k]
            &&& b.nodes@.len() == a.nodes@.len()
            &&& b.puzzle.streams@ == a.puzzle.streams@
        },
        Some(Neighbor::Stream(q)) => {
            &&& b.nodes@ == a.nodes@
            &&& stream_after_read(a.puzzle.streams@[q as int], b.puzzle.streams@[q as int])
            &&& forall|k: int| 0 <= k < a.puzzle.streams@.len() && k != q ==> #[trigger] b.puzzle.streams@[k] == a.puzzle.streams@[k]
            &&& b.puzzle.streams@.len() == a.puzzle.streams@.len()
        },
        None => unchanged(a, b),
    }
}

/// The first of up, down, left and right from which cell `i` would get a
/// value now.
pub open spec fn first_offering(m: Machine, i: int) -> Option<Location> {
    if direction_result(m, i, Location::UP) is Some {
        Some(Location::UP)
    } else if direction_result(m, i, Location::DOWN) is Some {
        Some(Location::DOWN)
    } else if direction_result(m, i, Location::LEFT) is Some {
        Some(Location::LEFT)
    } else if direction_result(m, i, Location::RIGHT) is Some {
        Some(Location::RIGHT)
    } else {
        None
    }
}

/// What reading operand `loc` by cell `i` does to the grid: a direction is
/// read as `read_effect` says, `ANY` reads the first direction that offers a
/// value, and a register, zero or literal changes nothing.
pub open spec fn port_effect(a: Machine, i: int, loc: Location, b: Machine) -> bool {
    if is_direction(loc) {
        read_effect(a, i, loc, b)
    } else if loc is ANY {
        match first_offering(a, i) {
            Some(d) => read_effect(a, i, d, b),
            None => unchanged(a, b),
        }
    } else {
        unchanged(a, b)
    }
}

/// What a storage node in cell `i` pulling from side `d` does to the grid:
/// the value it takes is stored in front, the writer's outbox is emptied,
/// and nothing else changes.
pub open spec fn pull_effect(a: Machine, i: int, d: Location, b: Machine) -> bool {
    &&& b.puzzle.streams@ == a.puzzle.streams@
    &&& b.nodes@.len() == a.nodes@.len()
    &&& b.nodes@[i]->Storage_0.stack@ == pulled(a, i, d) + a.nodes@[i]->Storage_0.stack@
    &&& same_cell(a.nodes@[i], b.nodes@[i])
    &&& match pull_source(a, i, d) {
        Some(j) => {
            &&& regs_of(b.nodes@[j as int]) == (Registers { outbox: None, ..regs_of(a.nodes@[j as int]) })
            &&& same_cell(a.nodes@[j as int], b.nodes@[j as int])
            &&& forall|k: int| 0 <= k < GRID_SIZE && k != i && k != j ==> #[trigger] b.nodes@[k] == a.nodes@[k]
        },
        None => forall|k: int| 0 <= k < GRID_SIZE && k != i ==> #[trigger] b.nodes@[k] == a.nodes@[k],
    }
}

/// After cell `i`'s read left grid `mid`, its step and any hand-over to the
/// output stream below give grid `b`: only node `i` and that stream change.
pub open spec fn step_effect(a: Machine, mid: Machine, i: int, b: Machine) -> bool {
    let after = compute_step(a.nodes@[i]->Computing_0, step_input(a, i));
    &&& regs_of(b.nodes@[i]) == turn_result(a, i)
    &&& same_cell(mid.nodes@[i], b.nodes@[i])
    &&& b.nodes@.len() == mid.nodes@.len()
    &&& forall|k: int| 0 <= k < GRID_SIZE && k != i ==> #[trigger] b.nodes@[k] == mid.nodes@[k]
    &&& b.puzzle.streams@.len() == mid.puzzle.streams@.len()
    &&& forall|q: int| 0 <= q < mid.puzzle.streams@.len() ==> (if output_below(a, i) == Some(q as usize) && hands_down(after.outbox) {
        &&& stream_kept(mid.puzzle.streams@[q], #[trigger] b.puzzle.streams@[q])
        &&& b.puzzle.streams@[q].answers@ == mid.puzzle.streams@[q].answers@.push(after.outbox.unwrap().value)
    } else {
        b.puzzle.streams@[q] == mid.puzzle.streams@[q]
    })
}

/// Cell `i` has taken its turn from grid `a` to grid `b`: a computing node
/// has read its operand (taking it from a neighbour or an input stream),
/// stepped, and handed a write aimed down to the output stream below at
/// once; a storage node has pulled from up, down, left and right; a
/// disabled node has done nothing. Other nodes at most lose a pending write
/// to this node.
pub open spec fn turn(a: Machine, i: int, b: Machine) -> bool {
    &&& b.wf()
    &&& same_grid(a, b)
    &&& b.step_count == a.step_count
    &&& forall|k: int| 0 <= k < GRID_SIZE && k != i && (#[trigger] a.nodes@[k]) is Computing
        ==> regs_of(b.nodes@[k]) == regs_of(a.nodes@[k])
        || (deliverable_any(regs_of(a.nodes@[k]).outbox)
            && regs_of(b.nodes@[k]) == (Registers { outbox: None, ..regs_of(a.nodes@[k]) }))
    &&& a.nodes@[i] is Computing ==> regs_of(b.nodes@[i]) == turn_result(a, i)
    &&& a.nodes@[i] is Computing ==> forall|q: int| 0 <= q < a.puzzle.streams@.len() ==>
        (#[trigger] b.puzzle.streams@[q]).answers@ == (if output_below(a, i) == Some(q as usize)
            && hands_down(compute_step(a.nodes@[i]->Computing_0, step_input(a, i)).outbox) {
            a.puzzle.streams@[q].answers@.push(compute_step(a.nodes@[i]->Computing_0, step_input(a, i)).outbox.unwrap().value)
        } else {
            a.puzzle.streams@[q].answers@
        })
    &&& a.nodes@[i] is Storage ==> b.nodes@[i]->Storage_0.stack@
        == pulled(a, i, Location::RIGHT) + pulled(a, i, Location::LEFT)
        + pulled(a, i, Location::DOWN) + pulled(a, i, Location::UP) + a.nodes@[i]->Storage_0.stack@
    &&& a.nodes@[i] is Storage ==> b.puzzle.streams@ == a.puzzle.streams@
    &&& a.nodes@[i] is Disabled ==> b.nodes@ == a.nodes@ && b.puzzle.streams@ == a.puzzle.streams@
    &&& a.nodes@[i] is Computing ==> exists|mid: Machine| {
        &&& match compute_wants(a.nodes@[i]->Computing_0) {
            Some(loc) => port_effect(a, i, loc, mid),
            None => unchanged(a, mid),
        }
        &&& #[trigger] step_effect(a, mid, i, b)
    }
    &&& a.nodes@[i] is Storage ==> exists|p1: Machine, p2: Machine, p3: Machine| {
        &&& #[trigger] pull_effect(a, i, Location::UP, p1)
        &&& #[trigger] pull_effect(p1, i, Location::DOWN, p2)
        &&& #[trigger] pull_effect(p2, i, Location::LEFT, p3)
        &&& pull_effect(p3, i, Location::RIGHT, b)
    }
}

/// `b` is `a` at the start of a tick: every pending write has become
/// readable, nothing else has changed.
pub open spec fn matured_grid(a: Machine, b: Machine) -> bool {
    &&& b.wf()
    &&& same_grid(a, b)
    &&& b.step_count == a.step_count
    &&& b.puzzle.streams@ == a.puzzle.streams@
    &&& forall|k: int| 0 <= k < GRID_SIZE ==> {
        &&& (#[trigger] a.nodes@[k]) is Computing ==> regs_of(b.nodes@[k])
            == (Registers { outbox: matured(regs_of(a.nodes@[k]).outbox), ..regs_of(a.nodes@[k]) })
        &&& !(a.nodes@[k] is Computing) ==> b.nodes@[k] == a.nodes@[k]
    }
}

/// `t` records one tick from `a` to `b`: `t[0]` is `a` with its pending
/// writes made readable, and `t[k + 1]` follows from `t[k]` by the turn of
/// cell `k`, for every cell in order; `b` is the last of them with the tick
/// counted.
pub open spec fn tick_trace(a: Machine, t: Seq<Machine>, b: Machine) -> bool {
    &&& t.len() == GRID_SIZE + 1
    &&& matured_grid(a, t[0])
    &&& forall|k: int| 0 <= k < GRID_SIZE ==> turn(#[trigger] t[k], k, t[k + 1])
    &&& b.nodes@ == t[GRID_SIZE as int].nodes@
    &&& b.puzzle.streams@ == t[GRID_SIZE as int].puzzle.streams@
    &&& b.puzzle.layout@ == a.puzzle.layout@
    &&& b.step_count == a.step_count + 1
}

/// `b` is `a` with only the received values of stream `k` changed.
pub open spec fn stream_kept(a: AnswerStream, b: AnswerStream) -> bool {
    &&& b.stream_type == a.stream_type
    &&& b.name@ == a.name@
    &&& b.offset == a.offset
    &&& b.values@ == a.values@
    &&& b.cursor == a.cursor
}

/// What a computing node in cell `i` gets this tick by reading direction
/// `d`: the adjacent node's offer toward it, or the next value of the input
/// stream above it.
pub open spec fn direction_result(m: Machine, i: int, d: Location) -> Option<i32> {
    match neighbor(m.puzzle.streams@, i, d) {
        Some(Neighbor::Cell(j)) => read_result(m.nodes@[j as int], opposite_spec(d)),
        Some(Neighbor::Stream(k)) => {
            let st = m.puzzle.streams@[k as int];
            if st.stream_type is STREAM_INPUT && st.cursor < st.values@.len() {
                Some(st.values@[st.cursor as int])
            } else {
                None
            }
        },
        None => None,
    }
}

/// What an `ANY` read gives the computing node in cell `i`: the first of
/// up, down, left and right that offers a value.
pub open spec fn any_result(m: Machine, i: int) -> Option<i32> {
    if direction_result(m, i, Location::UP) is Some {
        direction_result(m, i, Location::UP)
    } else if direction_result(m, i, Location::DOWN) is Some {
        direction_result(m, i, Location::DOWN)
    } else if direction_result(m, i, Location::LEFT) is Some {
        direction_result(m, i, Location::LEFT)
    } else {
        direction_result(m, i, Location::RIGHT)
    }
}

/// What read operand `loc` gives the computing node in cell `i` now.
pub open spec fn port_result(m: Machine, i: int, loc: Location) -> Option<i32> {
    match loc {
        Location::ACC => Some(regs_of(m.nodes@[i]).acc),
        Location::NIL => Some(0i32),
        Location::CONSTANT(n) => Some(n),
        Location::ANY => any_result(m, i),
        _ => direction_result(m, i, loc),
    }
}

/// What the computing node in cell `i` reads in its coming step, if it
/// reads at all.
pub open spec fn step_input(m: Machine, i: int) -> Option<i32> {
    match compute_wants(m.nodes@[i]->Computing_0) {
        Some(l) => port_result(m, i, l),
        None => None,
    }
}

proof fn lemma_first_bound_unique(s: Seq<(usize, StreamType)>, col: int, ty: StreamType, a: Option<Neighbor>, b: Option<Neighbor>)
    requires
        first_bound(s, col, ty, a),
        first_bound(s, col, ty, b),
    ensures
        a == b,
{
    if let Some(Neighbor::Stream(ka)) = a {
        if let Some(Neighbor::Stream(kb)) = b {
            if ka < kb {
                assert(!binds(s[ka as int], col, ty));
            } else if kb < ka {
                assert(!binds(s[kb as int], col, ty));
            }
        } else {
            assert(!binds(s[ka as int], col, ty));
        }
    } else if let Some(Neighbor::Stream(kb)) = b {
        assert(!binds(s[kb as int], col, ty));
    }
}

proof fn lemma_first_bound_exists(s: Seq<(usize, StreamType)>, col: int, ty: StreamType)
    requires
        s.len() <= usize::MAX,
    ensures
        exists|r: Option<Neighbor>| first_bound(s, col, ty, r),
    decreases s.len(),
{
    if s.len() == 0 {
        assert(first_bound(s, col, ty, None));
    } else {
        let p = s.drop_last();
        lemma_first_bound_exists(p, col, ty);
        let r = choose|r: Option<Neighbor>| first_bound(p, col, ty, r);
        assert(forall|j: int| 0 <= j < p.len() ==> p[j] == s[j]);
        if let Some(Neighbor::Stream(k)) = r {
            assert(first_bound(s, col, ty, r));
        } else if binds(s[s.len() - 1], col, ty) {
            assert forall|j: int| 0 <= j < s.len() - 1 implies !binds(#[trigger] s[j], col, ty) by {
                assert(p[j] == s[j]);
            }
            let last = (s.len() - 1) as usize;
            assert(last as int == s.len() - 1);
            assert(binds(s[last as int], col, ty));
            assert(first_bound(s, col, ty, Some(Neighbor::Stream(last))));
        } else {
            assert forall|j: int| 0 <= j < s.len() implies !binds(#[trigger] s[j], col, ty) by {
                if j < s.len() - 1 {
                    assert(p[j] == s[j]);
                }
            }
            assert(first_bound(s, col, ty, None));
        }
    }
}

/// `neighbor` picks what `neighbor_of` describes.
pub proof fn lemma_neighbor_spec(s: Seq<AnswerStream>, i: int, loc: Location)
    requires
        s.len() <= usize::MAX,
    ensures
        neighbor_of(bindings(s), i, loc, neighbor(s, i, loc)),
{
    let b = bindings(s);
    match loc {
        Location::UP => if i < 4 {
            lemma_first_bound_exists(b, i, StreamType::STREAM_INPUT);
            let r = choose|r: Option<Neighbor>| first_bound(b, i, StreamType::STREAM_INPUT, r);
            assert(neighbor_of(b, i, loc, r));
        } else {
            assert(neighbor_of(b, i, loc, Some(Neighbor::Cell((i - 4) as usize))));
        },
        Location::DOWN => if i >= 8 {
            let col = i - 8;
            lemma_first_bound_exists(b, col, StreamType::STREAM_OUTPUT);
            let r = choose|r: Option<Neighbor>| first_bound(b, col, StreamType::STREAM_OUTPUT, r);
            assert(neighbor_of(b, i, loc, r));
        } else {
            assert(neighbor_of(b, i, loc, Some(Neighbor::Cell((i + 4) as usize))));
        },
        Location::LEFT => if i % 4 == 0 {
            assert(neighbor_of(b, i, loc, None));
        } else {
            assert(neighbor_of(b, i, loc, Some(Neighbor::Cell((i - 1) as usize))));
        },
        Location::RIGHT => if i % 4 == 3 {
            assert(neighbor_of(b, i, loc, None));
        } else {
            assert(neighbor_of(b, i, loc, Some(Neighbor::Cell((i + 1) as usize))));
        },
        _ => {
            assert(neighbor_of(b, i, loc, None));
        },
    }
}

/// What lies beyond a side of a cell is determined by the streams, the cell
/// and the side.
pub proof fn lemma_neighbor_unique(s: Seq<(usize, StreamType)>, i: int, loc: Location, a: Option<Neighbor>, b: Option<Neighbor>)
    requires
        neighbor_of(s, i, loc, a),
        neighbor_of(s, i, loc, b),
    ensures
        a == b,
{
    match loc {
        Location::UP => if i < 4 {
            lemma_first_bound_unique(s, i, StreamType::STREAM_INPUT, a, b);
        },
        Location::DOWN => if i >= 8 {
            lemma_first_bound_unique(s, i - 8, StreamType::STREAM_OUTPUT, a, b);
        },
        _ => {},
    }
}

impl Machine {
    pub open spec fn wf(&self) -> bool {
        &&& self.nodes@.len() == GRID_SIZE
        &&& self.puzzle.layout@.len() == GRID_SIZE
        &&& forall|i: int| 0 <= i < GRID_SIZE ==> {
            &&& (#[trigger] self.nodes@[i]).index_of() == i
            &&& self.nodes@[i].kind() == self.puzzle.layout@[i]
            &&& self.nodes@[i].wf()
        }
        &&& forall|k: int| 0 <= k < self.puzzle.streams@.len() ==> (#[trigger] self.puzzle.streams@[k]).wf()
        &&& self.puzzle.streams@.len() <= usize::MAX
    }

    /// Whether the simulation is done: every output stream has received
    /// its reference sequence.
    pub open spec fn complete(&self) -> bool {
        all_satisfied(self.puzzle.streams@)
    }

    /// Sets up the grid: one node per layout entry, each stream rewound
    /// (nothing delivered, nothing received), no tick run. Refused unless the
    /// layout has one entry per cell.
    pub fn new(puzzle: Puzzle) -> (r: Result<Machine, LoadError>)
        ensures
            puzzle.layout@.len() != GRID_SIZE <==> r == Err::<Machine, LoadError>(LoadError::LayoutSize),
            puzzle.layout@.len() == GRID_SIZE ==> r is Ok,
            r matches Ok(m) ==> set_up_from(m, puzzle),
    {
        if puzzle.layout.len() != GRID_SIZE {
            return Err(LoadError::LayoutSize);
        }
        let layout = puzzle.layout;
        let mut streams = puzzle.streams;
        let mut k: usize = 0;
        while k < streams.len()
            invariant
                streams@.len() == puzzle.streams@.len(),
                k <= streams@.len(),
                forall|j: int| 0 <= j < streams@.len() ==> {
                    &&& (#[trigger] streams@[j]).stream_type == puzzle.streams@[j].stream_type
                    &&& streams@[j].name@ == puzzle.streams@[j].name@
                    &&& streams@[j].offset == puzzle.streams@[j].offset
                    &&& streams@[j].values@ == puzzle.streams@[j].values@
                    &&& j < k ==> streams@[j].answers@.len() == 0 && streams@[j].cursor == 0
                },
            decreases streams@.len() - k,
        {
            streams[k].rewind();
            k += 1;
        }
        let mut nodes: Vec<Node> = Vec::new();
        let mut index: usize = 0;
        while index < layout.len()
            invariant
                layout@ == puzzle.layout@,
                layout@.len() == GRID_SIZE,
                index <= GRID_SIZE,
                nodes@.len() == index,
                forall|i: int| 0 <= i < index ==> fresh_node(#[trigger] nodes@[i], i, layout@[i]),
            decreases GRID_SIZE - index,
        {
            nodes.push(Node::new(layout[index], index));
            index += 1;
        }
        let m = Machine { puzzle: Puzzle { streams, layout }, nodes, step_count: 0 };
        assert(forall|i: int| 0 <= i < GRID_SIZE ==> fresh_node(#[trigger] m.nodes@[i], i, m.puzzle.layout@[i]));
        Ok(m)
    }

    /// Ticks run so far.
    pub fn step_count(&self) -> (r: usize)
        ensures
            r == self.step_count,
    {
        self.step_count
    }

    /// Whether some output stream has not yet received its reference
    /// sequence.
    pub fn not_complete(&self) -> (r: bool)
        ensures
            r == !self.complete(),
    {
        let s = &self.puzzle.streams;
        let mut k: usize = 0;
        while k < s.len()
            invariant
                s@ == self.puzzle.streams@,
                k <= s@.len(),
                forall|j: int| 0 <= j < k && (#[trigger] s@[j]).stream_type is STREAM_OUTPUT ==> stream_satisfied(s@[j]),
            decreases s@.len() - k,
        {
            if s[k].stream_type == StreamType::STREAM_OUTPUT && !s[k].check_completion() {
                assert(!stream_satisfied(s@[k as int]));
                return true;
            }
            k += 1;
        }
        false
    }

    /// The first stream of type `ty` bound to column `col`.
    fn find_stream(&self, col: usize, ty: StreamType) -> (r: Option<Neighbor>)
        ensures
            first_bound(bindings(self.puzzle.streams@), col as int, ty, r),
    {
        let s = &self.puzzle.streams;
        let mut k: usize = 0;
        while k < s.len()
            invariant
                s@ == self.puzzle.streams@,
                k <= s@.len(),
                forall|j: int| 0 <= j < k ==> !binds(#[trigger] bindings(s@)[j], col as int, ty),
            decreases s@.len() - k,
        {
            assert(bindings(s@)[k as int] == (s@[k as int].offset, s@[k as int].stream_type));
            if s[k].offset == col && s[k].stream_type == ty {
                return Some(Neighbor::Stream(k));
            }
            k += 1;
        }
        None
    }

    /// What lies beyond side `loc` of cell `index`.
    pub fn get_neighbor(&self, index: usize, loc: Location) -> (r: Option<Neighbor>)
        requires
            index < GRID_SIZE,
        ensures
            neighbor_of(bindings(self.puzzle.streams@), index as int, loc, r),
            r == neighbor(self.puzzle.streams@, index as int, loc),
    {
        let r = self.locate(index, loc);
        proof {
            lemma_neighbor_unique(bindings(self.puzzle.streams@), index as int, loc, r, neighbor(self.puzzle.streams@, index as int, loc));
        }
        r
    }

    fn locate(&self, index: usize, loc: Location) -> (r: Option<Neighbor>)
        requires
            index < GRID_SIZE,
        ensures
            neighbor_of(bindings(self.puzzle.streams@), index as int, loc, r),
    {
        match loc {
            Location::UP => {
                if index < WIDTH {
                    return self.find_stream(index, StreamType::STREAM_INPUT);
                }
                Some(Neighbor::Cell(index - WIDTH))
            },
            Location::DOWN => {
                if index >= 2 * WIDTH {
                    return self.find_stream(index - 2 * WIDTH, StreamType::STREAM_OUTPUT);
                }
                Some(Neighbor::Cell(index + WIDTH))
            },
            Location::LEFT => {
                if index % WIDTH == 0 {
                    return None;
                }
                Some(Neighbor::Cell(index - 1))
            },
            Location::RIGHT => {
                if index % WIDTH == WIDTH - 1 {
                    return None;
                }
                Some(Neighbor::Cell(index + 1))
            },
            _ => None,
        }
    }
}

impl Machine {
    /// A computing node in cell `i` reads direction `d`.
    fn read_direction(&mut self, i: usize, d: Location) -> (r: Option<i32>)
        requires
            old(self).wf(),
            i < GRID_SIZE,
            is_direction(d),
        ensures
            final(self).wf(),
            same_grid(*old(self), *final(self)),
            pcs_kept(*old(self), *final(self)),
            taken_only(*old(self), *final(self)),
            forall|q: int| 0 <= q < old(self).puzzle.streams@.len() ==> (#[trigger] final(self).puzzle.streams@[q]).answers@ == old(self).puzzle.streams@[q].answers@,
            final(self).step_count == old(self).step_count,
            final(self).nodes@[i as int] == old(self).nodes@[i as int],
            r == direction_result(*old(self), i as int, d),
            read_effect(*old(self), i as int, d, *final(self)),
    {
        match self.get_neighbor(i, d) {
            Some(Neighbor::Cell(j)) => self.nodes[j].read_from(d.opposite()),
            Some(Neighbor::Stream(k)) => self.puzzle.streams[k].take_input(),
            None => None,
        }
    }

    /// Whether reading direction `d` would give the computing node in cell
    /// `i` a value now.
    fn offers(&self, i: usize, d: Location) -> (r: bool)
        requires
            self.wf(),
            i < GRID_SIZE,
            is_direction(d),
        ensures
            r == direction_result(*self, i as int, d).is_some(),
    {
        match self.get_neighbor(i, d) {
            Some(Neighbor::Cell(j)) => self.nodes[j].offers(d.opposite()),
            Some(Neighbor::Stream(k)) => {
                let st = &self.puzzle.streams[k];
                st.stream_type == StreamType::STREAM_INPUT && st.cursor < st.values.len()
            },
            None => false,
        }
    }

    /// The value of read operand `loc` for the computing node in cell `i`:
    /// the accumulator, zero, a literal, a direction, or for `ANY` the first
    /// of up, down, left and right that yields one.
    fn read_port(&mut self, i: usize, loc: Location) -> (r: Option<i32>)
        requires
            old(self).wf(),
            i < GRID_SIZE,
        ensures
            final(self).wf(),
            same_grid(*old(self), *final(self)),
            pcs_kept(*old(self), *final(self)),
            taken_only(*old(self), *final(self)),
            forall|q: int| 0 <= q < old(self).puzzle.streams@.len() ==> (#[trigger] final(self).puzzle.streams@[q]).answers@ == old(self).puzzle.streams@[q].answers@,
            final(self).step_count == old(self).step_count,
            final(self).nodes@[i as int] == old(self).nodes@[i as int],
            loc is ACC ==> old(self).nodes@[i as int] is Computing
                ==> r == Some(old(self).nodes@[i as int]->Computing_0.regs.acc),
            loc is NIL ==> r == Some(0i32),
            loc matches Location::CONSTANT(n) ==> r == Some(n),
            is_direction(loc) ==> r == direction_result(*old(self), i as int, loc),
            loc is ANY ==> r == any_result(*old(self), i as int),
            port_effect(*old(self), i as int, loc, *final(self)),
    {
        match loc {
            Location::ACC => Some(self.nodes[i].acc()),
            Location::NIL => Some(0),
            Location::CONSTANT(n) => Some(n),
            Location::ANY => {
                if self.offers(i, Location::UP) {
                    self.read_direction(i, Location::UP)
                } else if self.offers(i, Location::DOWN) {
                    self.read_direction(i, Location::DOWN)
                } else if self.offers(i, Location::LEFT) {
                    self.read_direction(i, Location::LEFT)
                } else if self.offers(i, Location::RIGHT) {
                    self.read_direction(i, Location::RIGHT)
                } else {
                    None
                }
            },
            _ => self.read_direction(i, loc),
        }
    }

    /// A storage node in cell `i` takes in what the neighbour beyond side
    /// `d` has pending toward it, storing it in front of its other values.
    fn pull(&mut self, i: usize, d: Location)
        requires
            old(self).wf(),
            i < GRID_SIZE,
            is_direction(d),
            old(self).nodes@[i as int] is Storage,
        ensures
            pull_effect(*old(self), i as int, d, *final(self)),
            final(self).wf(),
            same_grid(*old(self), *final(self)),
            pcs_kept(*old(self), *final(self)),
            taken_only(*old(self), *final(self)),
            final(self).step_count == old(self).step_count,
            final(self).puzzle.streams@ == old(self).puzzle.streams@,
            final(self).nodes@[i as int]->Storage_0.stack@ == pulled(*old(self), i as int, d) + old(self).nodes@[i as int]->Storage_0.stack@,
            match pull_source(*old(self), i as int, d) {
                Some(j) => {
                    &&& regs_of(final(self).nodes@[j as int]) == (Registers { outbox: None, ..regs_of(old(self).nodes@[j as int]) })
                    &&& forall|k: int| 0 <= k < GRID_SIZE && k != i && k != j ==> #[trigger] final(self).nodes@[k] == old(self).nodes@[k]
                },
                None => forall|k: int| 0 <= k < GRID_SIZE && k != i ==> #[trigger] final(self).nodes@[k] == old(self).nodes@[k],
            },
    {
        if let Some(Neighbor::Cell(j)) = self.get_neighbor(i, d) {
            if let Some(v) = self.nodes[j].take_pending(d.opposite()) {
                self.nodes[i].store(v);
                return;
            }
        }
        assert(self.nodes@[i as int]->Storage_0.stack@ =~= pulled(*old(self), i as int, d) + old(self).nodes@[i as int]->Storage_0.stack@);
    }

    /// The bottom-row computing node in cell `cell` hands a write aimed down
    /// (or at `ANY`) to the output stream below it, which takes it at once.
    fn deliver_output(&mut self, cell: usize)
        requires
            old(self).wf(),
            2 * WIDTH <= cell < GRID_SIZE,
        ensures
            final(self).wf(),
            same_grid(*old(self), *final(self)),
            final(self).step_count == old(self).step_count,
            match output_taker(*old(self), cell as int) {
                Some(k) => {
                    &&& final(self).puzzle.streams@[k as int].answers@ == old(self).puzzle.streams@[k as int].answers@.push(
                        regs_of(old(self).nodes@[cell as int]).outbox.unwrap().value)
                    &&& stream_kept(old(self).puzzle.streams@[k as int], final(self).puzzle.streams@[k as int])
                    &&& forall|q: int| 0 <= q < old(self).puzzle.streams@.len() && q != k
                        ==> #[trigger] final(self).puzzle.streams@[q] == old(self).puzzle.streams@[q]
                    &&& regs_of(final(self).nodes@[cell as int]) == handed_down(old(self).nodes@[cell as int]->Computing_0)
                    &&& forall|q: int| 0 <= q < GRID_SIZE && q != cell ==> #[trigger] final(self).nodes@[q] == old(self).nodes@[q]
                },
                None => final(self).nodes@ == old(self).nodes@ && final(self).puzzle.streams@ == old(self).puzzle.streams@,
            },
    {
        if let Some(Neighbor::Stream(k)) = self.get_neighbor(cell, Location::DOWN) {
            if let Some(v) = self.nodes[cell].take_for_output() {
                self.puzzle.streams[k].receive(v);
            }
        }
    }

    /// A storage node in cell `i` pulls from up, down, left and right in
    /// turn.
    #[verifier::rlimit(100)]
    fn pull_all(&mut self, i: usize)
        requires
            old(self).wf(),
            i < GRID_SIZE,
            old(self).nodes@[i as int] is Storage,
        ensures
            exists|p1: Machine, p2: Machine, p3: Machine| {
                &&& #[trigger] pull_effect(*old(self), i as int, Location::UP, p1)
                &&& #[trigger] pull_effect(p1, i as int, Location::DOWN, p2)
                &&& #[trigger] pull_effect(p2, i as int, Location::LEFT, p3)
                &&& pull_effect(p3, i as int, Location::RIGHT, *final(self))
            },
            final(self).wf(),
            same_grid(*old(self), *final(self)),
            pcs_kept(*old(self), *final(self)),
            taken_only(*old(self), *final(self)),
            final(self).step_count == old(self).step_count,
            final(self).puzzle.streams@ == old(self).puzzle.streams@,
            final(self).nodes@[i as int]->Storage_0.stack@
                == pulled(*old(self), i as int, Location::RIGHT) + pulled(*old(self), i as int, Location::LEFT)
                + pulled(*old(self), i as int, Location::DOWN) + pulled(*old(self), i as int, Location::UP)
                + old(self).nodes@[i as int]->Storage_0.stack@,
    {
        let ghost s0 = *self;
        proof {
            lemma_neighbor_spec(s0.puzzle.streams@, i as int, Location::UP);
            lemma_neighbor_spec(s0.puzzle.streams@, i as int, Location::DOWN);
            lemma_neighbor_spec(s0.puzzle.streams@, i as int, Location::LEFT);
            lemma_neighbor_spec(s0.puzzle.streams@, i as int, Location::RIGHT);
        }
        self.pull(i, Location::UP);
        let ghost p1 = *self;
        self.pull(i, Location::DOWN);
        let ghost p2 = *self;
        self.pull(i, Location::LEFT);
        let ghost p3 = *self;
        self.pull(i, Location::RIGHT);
        proof {
            assert(pulled(p1, i as int, Location::DOWN) == pulled(s0, i as int, Location::DOWN));
            assert(pulled(p2, i as int, Location::LEFT) == pulled(s0, i as int, Location::LEFT));
            assert(pulled(p3, i as int, Location::RIGHT) == pulled(s0, i as int, Location::RIGHT));
            assert(pull_effect(s0, i as int, Location::UP, p1));
            assert(pull_effect(p1, i as int, Location::DOWN, p2));
            assert(pull_effect(p2, i as int, Location::LEFT, p3));
            assert(pull_effect(p3, i as int, Location::RIGHT, *self));
            assert(self.nodes@[i as int]->Storage_0.stack@ =~= pulled(s0, i as int, Location::RIGHT)
                + pulled(s0, i as int, Location::LEFT) + pulled(s0, i as int, Location::DOWN)
                + pulled(s0, i as int, Location::UP) + s0.nodes@[i as int]->Storage_0.stack@);
        }
    }

    /// One tick of the node in cell `i`. A storage node pulls from up, down,
    /// left and right in turn; a computing node reads its operand, if the
    /// instruction it is about to run has one, and then steps.
    fn step_node(&mut self, i: usize)
        requires
            old(self).wf(),
            i < GRID_SIZE,
        ensures
            turn(*old(self), i as int, *final(self)),
    {
        let ghost s0 = *self;
        if let Node::Storage(_) = self.nodes[i] {
            self.pull_all(i);
        } else {
            let input = match self.nodes[i].wants() {
                Some(l) => self.read_port(i, l),
                None => None,
            };
            let ghost s1 = *self;
            assert(s0.nodes@[i as int] is Computing ==> input == step_input(s0, i as int));
            self.nodes[i].advance(input);
            let ghost s2 = *self;
            proof {
                if s0.nodes@[i as int] is Disabled {
                    assert(s2.nodes@ =~= s0.nodes@);
                }
                assert(bindings(s2.puzzle.streams@) =~= bindings(s0.puzzle.streams@));
                assert(s2.puzzle.streams@ == s1.puzzle.streams@);
            }
            proof {
                assert(neighbor(s2.puzzle.streams@, i as int, Location::DOWN) == neighbor(s0.puzzle.streams@, i as int, Location::DOWN));
            }
            if i >= 2 * WIDTH {
                self.deliver_output(i);
            }
            proof {
            if s0.nodes@[i as int] is Computing {
                let c = s0.nodes@[i as int]->Computing_0;
                let after = compute_step(c, step_input(s0, i as int));
                assert(regs_of(s2.nodes@[i as int]) == after);
                assert forall|q: int| 0 <= q < s0.puzzle.streams@.len() implies
                    (#[trigger] self.puzzle.streams@[q]).answers@ == (if output_below(s0, i as int) == Some(q as usize)
                        && hands_down(after.outbox) {
                        s0.puzzle.streams@[q].answers@.push(after.outbox.unwrap().value)
                    } else {
                        s0.puzzle.streams@[q].answers@
                    }) by {
                    assert(s2.puzzle.streams@[q].answers@ == s0.puzzle.streams@[q].answers@);
                }
                assert(match compute_wants(c) {
                    Some(loc) => port_effect(s0, i as int, loc, s1),
                    None => unchanged(s0, s1),
                });
                assert(step_effect(s0, s1, i as int, *self));
            }
            }
        }
    }

    /// One tick of the whole grid: every pending write from the previous
    /// tick becomes readable, then every node steps once in cell order, then
    /// each output stream takes what is pending toward it.
    pub fn update(&mut self)
        requires
            old(self).wf(),
            old(self).step_count < usize::MAX,
        ensures
            final(self).wf(),
            same_grid(*old(self), *final(self)),
            final(self).step_count == old(self).step_count + 1,
            exists|t: Seq<Machine>| tick_trace(*old(self), t, *final(self)),
            forall|k: int| 0 <= k < GRID_SIZE && (#[trigger] old(self).nodes@[k]) is Computing ==> held_since(
                Registers { outbox: matured(regs_of(old(self).nodes@[k]).outbox), ..regs_of(old(self).nodes@[k]) },
                regs_of(final(self).nodes@[k]),
            ),
    {
        let mut i: usize = 0;
        while i < GRID_SIZE
            invariant
                self.wf(),
                same_grid(*old(self), *self),
                self.step_count == old(self).step_count,
                i <= GRID_SIZE,
                self.puzzle.streams@ == old(self).puzzle.streams@,
                forall|k: int| 0 <= k < GRID_SIZE && !(#[trigger] old(self).nodes@[k] is Computing) ==> self.nodes@[k] == old(self).nodes@[k],
                forall|k: int| 0 <= k < GRID_SIZE && (#[trigger] old(self).nodes@[k]) is Computing ==> regs_of(self.nodes@[k]) == (if k < i {
                    Registers { outbox: matured(regs_of(old(self).nodes@[k]).outbox), ..regs_of(old(self).nodes@[k]) }
                } else {
                    regs_of(old(self).nodes@[k])
                }),
            decreases GRID_SIZE - i,
        {
            self.nodes[i].mature();
            i += 1;
        }
        let ghost s1 = *self;
        assert(matured_grid(*old(self), s1));
        let ghost mut t: Seq<Machine> = seq![s1];
        assert forall|k: int| 0 <= k < GRID_SIZE && (#[trigger] s1.nodes@[k]) is Computing implies
            held_since(regs_of(s1.nodes@[k]), regs_of(self.nodes@[k]))
            && (regs_of(s1.nodes@[k]).outbox is None || !regs_of(s1.nodes@[k]).outbox.unwrap().fresh) by {
            assert(old(self).nodes@[k] is Computing);
            let o = regs_of(old(self).nodes@[k]).outbox;
            if o is Some {
                assert(matured(o).unwrap().fresh == false);
            }
        }
        let mut i: usize = 0;
        while i < GRID_SIZE
            invariant
                self.wf(),
                s1.wf(),
                same_grid(*old(self), s1),
                same_grid(s1, *self),
                self.step_count == old(self).step_count,
                i <= GRID_SIZE,
                forall|k: int| 0 <= k < GRID_SIZE && (#[trigger] old(self).nodes@[k]) is Computing ==>
                    regs_of(s1.nodes@[k]) == (Registers { outbox: matured(regs_of(old(self).nodes@[k]).outbox), ..regs_of(old(self).nodes@[k]) }),
                forall|k: int| 0 <= k < GRID_SIZE && (#[trigger] s1.nodes@[k]) is Computing ==> {
                    &&& held_since(regs_of(s1.nodes@[k]), regs_of(self.nodes@[k]))
                    &&& (k >= i ==> regs_of(self.nodes@[k]).retiring == regs_of(s1.nodes@[k]).retiring)
                    &&& (k >= i ==> (regs_of(self.nodes@[k]).outbox is None || regs_of(self.nodes@[k]) == regs_of(s1.nodes@[k])))
                    &&& (regs_of(s1.nodes@[k]).outbox is None || !regs_of(s1.nodes@[k]).outbox.unwrap().fresh)
                },
                t.len() == i + 1,
                t[0] == s1,
                t[i as int] == *self,
                forall|k: int| 0 <= k < i ==> turn(#[trigger] t[k], k, t[k + 1]),
            decreases GRID_SIZE - i,
        {
            let ghost before = *self;
            self.step_node(i);
            proof {
                t = t.push(*self);
                assert(forall|k: int| 0 <= k < i ==> t[k] == t.drop_last()[k]);
            }
            proof {
                assert forall|k: int| 0 <= k < GRID_SIZE && (#[trigger] s1.nodes@[k]) is Computing implies {
                    &&& held_since(regs_of(s1.nodes@[k]), regs_of(self.nodes@[k]))
                    &&& (k >= i + 1 ==> regs_of(self.nodes@[k]).retiring == regs_of(s1.nodes@[k]).retiring)
                    &&& (k >= i + 1 ==> (regs_of(self.nodes@[k]).outbox is None || regs_of(self.nodes@[k]) == regs_of(s1.nodes@[k])))
                    &&& (regs_of(s1.nodes@[k]).outbox is None || !regs_of(s1.nodes@[k]).outbox.unwrap().fresh)
                } by {
                    assert(before.nodes@[k] is Computing);
                    if k == i {
                        let c = before.nodes@[k]->Computing_0;
                        lemma_step_outbox(c, step_input(before, k));
                        if c.regs.outbox is Some {
                            assert(matured(c.regs.outbox) == c.regs.outbox);
                        }
                    }
                }
            }
            i += 1;
        }
        assert forall|k: int| 0 <= k < GRID_SIZE && (#[trigger] old(self).nodes@[k]) is Computing implies held_since(
            Registers { outbox: matured(regs_of(old(self).nodes@[k]).outbox), ..regs_of(old(self).nodes@[k]) },
            regs_of(self.nodes@[k]),
        ) by {
            assert(s1.nodes@[k] is Computing);
        }
        self.step_count = self.step_count + 1;
        assert(tick_trace(*old(self), t, *self));
    }

    /// Attaches a program to the computing node in cell `index`. Refused for
    /// a cell outside the grid, a node that is not a computing node, a node
    /// that already has a program, or a program with a jump past its end or
    /// a write into a literal.
    pub fn load_instructions(&mut self, index: usize, instructions: Vec<Instruction>) -> (r: Result<(), LoadError>)
        requires
            old(self).wf(),
        ensures
            final(self).wf(),
            same_grid(*old(self), *final(self)) || r is Ok,
            final(self).step_count == old(self).step_count,
            index >= GRID_SIZE ==> r == Err::<(), LoadError>(LoadError::NoSuchNode),
            index < GRID_SIZE ==> {
                let n = old(self).nodes@[index as int];
                &&& !(n is Computing) ==> r == Err::<(), LoadError>(LoadError::NotComputing)
                &&& n matches Node::Computing(c) ==> {
                    &&& c.loaded ==> r == Err::<(), LoadError>(LoadError::AlreadyLoaded)
                    &&& !c.loaded && !program_fits(instructions@) ==> r == Err::<(), LoadError>(LoadError::UnfitProgram)
                    &&& !c.loaded && program_fits(instructions@) ==> {
                        &&& r is Ok
                        &&& final(self).nodes@[index as int]->Computing_0.instructions@ == instructions@
                        &&& final(self).nodes@[index as int]->Computing_0.regs == c.regs
                    }
                }
            },
            r is Err ==> final(self).nodes@ == old(self).nodes@,
            final(self).puzzle.layout@ == old(self).puzzle.layout@,
            final(self).puzzle.streams@ == old(self).puzzle.streams@,
            forall|k: int| 0 <= k < GRID_SIZE && k != index ==> #[trigger] final(self).nodes@[k] == old(self).nodes@[k],
    {
        if index >= GRID_SIZE {
            return Err(LoadError::NoSuchNode);
        }
        self.nodes[index].try_set_instructions(instructions)
    }

    /// For each stream, in order, what it has received: the received values
    /// of an output stream, nothing for any other stream.
    pub fn end_results(&self) -> (r: Vec<Vec<i32>>)
        ensures
            r@.len() == self.puzzle.streams@.len(),
            forall|k: int| 0 <= k < r@.len() ==> (#[trigger] r@[k])@ == (if self.puzzle.streams@[k].stream_type is STREAM_OUTPUT {
                self.puzzle.streams@[k].answers@
            } else {
                Seq::<i32>::empty()
            }),
    {
        let s = &self.puzzle.streams;
        let mut r: Vec<Vec<i32>> = Vec::new();
        let mut k: usize = 0;
        while k < s.len()
            invariant
                s@ == self.puzzle.streams@,
                k <= s@.len(),
                r@.len() == k,
                forall|j: int| 0 <= j < k ==> (#[trigger] r@[j])@ == (if s@[j].stream_type is STREAM_OUTPUT {
                    s@[j].answers@
                } else {
                    Seq::<i32>::empty()
                }),
            decreases s@.len() - k,
        {
            let mut got: Vec<i32> = Vec::new();
            if s[k].stream_type == StreamType::STREAM_OUTPUT {
                let a = &s[k].answers;
                let mut j: usize = 0;
                while j < a.len()
                    invariant
                        j <= a@.len(),
                        got@ == a@.subrange(0, j as int),
                    decreases a@.len() - j,
                {
                    got.push(a[j]);
                    j += 1;
                }
                assert(got@ =~= a@);
            } else {
                assert(got@ =~= Seq::<i32>::empty());
            }
            r.push(got);
            k += 1;
        }
        r
    }
}

/// Completion depends only on the output streams' received and reference
/// sequences: it fails while an output stream has received fewer values
/// than its reference holds, or a different value at some index, and it
/// holds exactly when every output stream has received its reference
/// sequence.
pub proof fn lemma_completion_by_outputs(s: Seq<AnswerStream>, k: int, idx: int)
    requires
        0 <= k < s.len(),
        s[k].stream_type is STREAM_OUTPUT,
    ensures
        s[k].answers@.len() < s[k].values@.len() ==> !all_satisfied(s),
        (0 <= idx < s[k].answers@.len() && idx < s[k].values@.len() && s[k].answers@[idx] != s[k].values@[idx])
            ==> !all_satisfied(s),
        all_satisfied(s) <==> forall|j: int| 0 <= j < s.len() && (#[trigger] s[j]).stream_type is STREAM_OUTPUT
            ==> s[j].answers@ == s[j].values@,
{
    if s[k].answers@.len() < s[k].values@.len() {
        assert(s[k].answers@ != s[k].values@);
    }
    if 0 <= idx < s[k].answers@.len() && idx < s[k].values@.len() && s[k].answers@[idx] != s[k].values@[idx] {
        assert(s[k].answers@ != s[k].values@);
    }
}

/// A grid just set up, before any tick, is not complete when some output
/// stream has a non-empty reference sequence.
pub proof fn lemma_new_machine_incomplete(puzzle: Puzzle, m: Machine, k: int)
    requires
        set_up_from(m, puzzle),
        0 <= k < puzzle.streams@.len(),
        puzzle.streams@[k].stream_type is STREAM_OUTPUT,
        puzzle.streams@[k].values@.len() > 0,
    ensures
        !m.complete(),
{
    assert(m.puzzle.streams@[k].answers@.len() < m.puzzle.streams@[k].values@.len());
    assert(!stream_satisfied(m.puzzle.streams@[k]));
}

/// Over one tick (`start` and `end` being a computing node's registers
/// before and after `update`), a node that holds a pending write when the
/// tick begins and still holds one when it ends has kept its program
/// counter, accumulator and backup, and what it holds is the same value,
/// now readable; a pending
/// write that is fresh at the end of a tick was made into an outbox that
/// was empty when the tick began.
pub proof fn lemma_tick_keeps_blocked_writer(start: Registers, end: Registers)
    requires
        held_since(Registers { outbox: matured(start.outbox), ..start }, end),
    ensures
        start.outbox is Some && end.outbox is Some ==> end == (Registers { outbox: matured(start.outbox), ..start })
            && !end.outbox.unwrap().fresh,
        (end.outbox is Some && end.outbox.unwrap().fresh) ==> start.outbox is None,
{
}

} // verus!
