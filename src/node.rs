use vstd::prelude::*;
use vstd::string::StringSliceAdditionalSpecFns;
use std::collections::VecDeque;
use crate::instruction::{Instruction, ParseError, fits, source_of, execute_spec, next_pc};
use crate::machine::LoadError;
use crate::puzzle::NodeType;

verus! {

/// A source or destination of a single value transfer.
#[allow(non_camel_case_types)]
#[derive(Clone, Copy, Debug, PartialEq, Eq, Structural)]
pub enum Location {
    LEFT,
    RIGHT,
    UP,
    DOWN,
    ANY,
    ACC,
    NIL,
    CONSTANT(i32),
}

/// The location is one of the four compass directions.
pub open spec fn is_direction(l: Location) -> bool {
    l is UP || l is DOWN || l is LEFT || l is RIGHT
}

pub open spec fn opposite_spec(l: Location) -> Location {
    match l {
        Location::UP => Location::DOWN,
        Location::DOWN => Location::UP,
        Location::LEFT => Location::RIGHT,
        Location::RIGHT => Location::LEFT,
        _ => Location::NIL,
    }
}

/// The port that a word names, if it is one of the port names (`LEFT`,
/// `RIGHT`, `UP`, `DOWN`, `ANY`, `ACC`, `NIL`, spelled here in ASCII codes).
pub open spec fn keyword_of(b: Seq<u8>) -> Option<Location> {
    if b == seq![76u8, 69u8, 70u8, 84u8] {
        Some(Location::LEFT)
    } else if b == seq![82u8, 73u8, 71u8, 72u8, 84u8] {
        Some(Location::RIGHT)
    } else if b == seq![85u8, 80u8] {
        Some(Location::UP)
    } else if b == seq![68u8, 79u8, 87u8, 78u8] {
        Some(Location::DOWN)
    } else if b == seq![65u8, 78u8, 89u8] {
        Some(Location::ANY)
    } else if b == seq![65u8, 67u8, 67u8] {
        Some(Location::ACC)
    } else if b == seq![78u8, 73u8, 76u8] {
        Some(Location::NIL)
    } else {
        None
    }
}

/// ASCII `0`.
pub const ZERO: u8 = 48;
/// ASCII `9`.
pub const NINE: u8 = 57;
/// ASCII `-`.
pub const MINUS: u8 = 45;
/// ASCII `+`.
pub const PLUS: u8 = 43;

pub open spec fn is_digit(c: u8) -> bool {
    ZERO <= c <= NINE
}

/// The value of a string of decimal digits.
pub open spec fn digits_value(b: Seq<u8>) -> int
    decreases b.len(),
{
    if b.len() == 0 {
        0
    } else {
        digits_value(b.drop_last()) * 10 + (b.last() - ZERO)
    }
}

pub open spec fn all_digits(d: Seq<u8>) -> bool {
    forall|k: int| 0 <= k < d.len() ==> is_digit(#[trigger] d[k])
}

/// The token starts with a sign.
pub open spec fn has_sign(b: Seq<u8>) -> bool {
    b.len() > 0 && (b[0] == MINUS || b[0] == PLUS)
}

/// The token without its sign.
pub open spec fn unsigned_part(b: Seq<u8>) -> Seq<u8> {
    if has_sign(b) { b.drop_first() } else { b }
}

/// A decimal integer: an optional `+` or `-`, then one or more digits,
/// whose value fits in an `i32`.
pub open spec fn decimal_of(b: Seq<u8>) -> Option<i32> {
    let d = unsigned_part(b);
    let v = if has_sign(b) && b[0] == MINUS { -digits_value(d) } else { digits_value(d) };
    if d.len() == 0 || !all_digits(d) {
        None
    } else if i32::MIN <= v <= i32::MAX {
        Some(v as i32)
    } else {
        None
    }
}

/// The port that a token names: a port name or a decimal literal.
pub open spec fn location_of(b: Seq<u8>) -> Option<Location> {
    match keyword_of(b) {
        Some(l) => Some(l),
        None => match decimal_of(b) {
            Some(n) => Some(Location::CONSTANT(n)),
            None => None,
        },
    }
}

/// Whether two byte strings are equal.
pub(crate) fn same_bytes(b: &[u8], w: &[u8]) -> (r: bool)
    ensures
        r == (b@ == w@),
{
    if b.len() != w.len() {
        return false;
    }
    let mut k: usize = 0;
    while k < b.len()
        invariant
            b@.len() == w@.len(),
            k <= b@.len(),
            forall|j: int| 0 <= j < k ==> b@[j] == w@[j],
        decreases b@.len() - k,
    {
        if b[k] != w[k] {
            return false;
        }
        k += 1;
    }
    assert(b@ =~= w@);
    true
}

fn keyword(b: &[u8]) -> (r: Option<Location>)
    ensures
        r == keyword_of(b@),
{
    let left: [u8; 4] = [76u8, 69u8, 70u8, 84u8];
    let right: [u8; 5] = [82u8, 73u8, 71u8, 72u8, 84u8];
    let up: [u8; 2] = [85u8, 80u8];
    let down: [u8; 4] = [68u8, 79u8, 87u8, 78u8];
    let any: [u8; 3] = [65u8, 78u8, 89u8];
    let acc: [u8; 3] = [65u8, 67u8, 67u8];
    let nil: [u8; 3] = [78u8, 73u8, 76u8];
    assert(left@ =~= seq![76u8, 69u8, 70u8, 84u8]);
    assert(right@ =~= seq![82u8, 73u8, 71u8, 72u8, 84u8]);
    assert(up@ =~= seq![85u8, 80u8]);
    assert(down@ =~= seq![68u8, 79u8, 87u8, 78u8]);
    assert(any@ =~= seq![65u8, 78u8, 89u8]);
    assert(acc@ =~= seq![65u8, 67u8, 67u8]);
    assert(nil@ =~= seq![78u8, 73u8, 76u8]);
    if same_bytes(b, left.as_slice()) {
        Some(Location::LEFT)
    } else if same_bytes(b, right.as_slice()) {
        Some(Location::RIGHT)
    } else if same_bytes(b, up.as_slice()) {
        Some(Location::UP)
    } else if same_bytes(b, down.as_slice()) {
        Some(Location::DOWN)
    } else if same_bytes(b, any.as_slice()) {
        Some(Location::ANY)
    } else if same_bytes(b, acc.as_slice()) {
        Some(Location::ACC)
    } else if same_bytes(b, nil.as_slice()) {
        Some(Location::NIL)
    } else {
        None
    }
}

/// Past this bound a digit string is too large for any `i32`.
const DIGITS_CAP: i64 = 2147483649;

proof fn lemma_digits_step(b: Seq<u8>, j: int)
    requires
        0 <= j < b.len(),
    ensures
        digits_value(b.subrange(0, j + 1)) == digits_value(b.subrange(0, j)) * 10 + (b[j] - ZERO),
{
    assert(b.subrange(0, j + 1).drop_last() =~= b.subrange(0, j));
}

proof fn lemma_digits_nonneg(b: Seq<u8>)
    requires
        forall|k: int| 0 <= k < b.len() ==> is_digit(#[trigger] b[k]),
    ensures
        digits_value(b) >= 0,
    decreases b.len(),
{
    if b.len() > 0 {
        let p = b.drop_last();
        assert forall|k: int| 0 <= k < p.len() implies is_digit(#[trigger] p[k]) by {
            assert(p[k] == b[k]);
        }
        lemma_digits_nonneg(p);
        assert(is_digit(b[b.len() - 1]));
    }
}

/// Reads a decimal integer as `decimal_of` describes it.
fn decimal(b: &[u8]) -> (r: Option<i32>)
    ensures
        r == decimal_of(b@),
{
    let signed = b.len() > 0 && (b[0] == MINUS || b[0] == PLUS);
    let negative = signed && b[0] == MINUS;
    let start: usize = if signed { 1 } else { 0 };
    let ghost d = if signed { b@.drop_first() } else { b@ };
    if start == b.len() {
        return None;
    }
    let mut capped: i64 = 0;
    let mut k: usize = start;
    while k < b.len()
        invariant
            start <= k <= b@.len(),
            start == (if signed { 1usize } else { 0usize }),
            signed == has_sign(b@),
            d == unsigned_part(b@),
            d =~= b@.subrange(start as int, b@.len() as int),
            forall|j: int| 0 <= j < k - start ==> is_digit(#[trigger] d[j]),
            0 <= capped <= DIGITS_CAP,
            capped == (if digits_value(d.subrange(0, k - start)) >= DIGITS_CAP {
                DIGITS_CAP as int
            } else {
                digits_value(d.subrange(0, k - start))
            }),
        decreases b@.len() - k,
    {
        let c = b[k];
        if !(ZERO <= c && c <= NINE) {
            assert(!is_digit(d[k - start]));
            assert(!all_digits(d));
            return None;
        }
        proof {
            let j = k - start;
            lemma_digits_step(d, j);
            assert(forall|i: int| 0 <= i < j ==> is_digit(#[trigger] d.subrange(0, j)[i]));
            lemma_digits_nonneg(d.subrange(0, j));
        }
        let next: i64 = capped * 10 + (c - ZERO) as i64;
        capped = if next >= DIGITS_CAP { DIGITS_CAP } else { next };
        k += 1;
    }
    assert(d.subrange(0, d.len() as int) =~= d);
    assert(all_digits(d));
    proof {
        lemma_digits_nonneg(d);
    }
    let v: i64 = if negative { -capped } else { capped };
    if capped < DIGITS_CAP && i32::MIN as i64 <= v && v <= i32::MAX as i64 {
        Some(v as i32)
    } else {
        None
    }
}

/// Whether `l` is one of the four compass directions.
pub fn is_dir(l: Location) -> (r: bool)
    ensures
        r == is_direction(l),
{
    matches!(l, Location::UP | Location::DOWN | Location::LEFT | Location::RIGHT)
}

impl Location {
    /// Reads a port token: `LEFT`, `RIGHT`, `UP`, `DOWN`, `ANY`, `ACC`, `NIL`,
    /// or a decimal literal that fits in an `i32`. Any other token is refused.
    pub fn parse(text: &str) -> (r: Result<Location, ParseError>)
        ensures
            r matches Ok(l) ==> location_of(text.spec_bytes()) == Some(l),
            r is Err <==> location_of(text.spec_bytes()) is None,
    {
        let b = text.as_bytes();
        if let Some(l) = keyword(b) {
            return Ok(l);
        }
        match decimal(b) {
            Some(n) => Ok(Location::CONSTANT(n)),
            None => Err(ParseError(text.to_owned())),
        }
    }

    /// The direction pointing back at the node on the other side of `self`;
    /// `NIL` for anything that is not a compass direction.
    pub fn opposite(&self) -> (r: Location)
        ensures
            r == opposite_spec(*self),
    {
        match *self {
            Location::UP => Location::DOWN,
            Location::DOWN => Location::UP,
            Location::LEFT => Location::RIGHT,
            Location::RIGHT => Location::LEFT,
            _ => Location::NIL,
        }
    }
}


/// A value waiting in a computing node's outbox for a reader. `target` is the
/// direction it was written to, or `ANY`; `fresh` holds during the tick in
/// which it was written, when no reader may take it.
#[derive(Clone, Copy, Debug, PartialEq, Eq, Structural)]
pub struct Pending {
    pub value: i32,
    pub target: Location,
    pub fresh: bool,
}

/// The mutable state of a computing node. `outbox` holds the one write that
/// is waiting for a reader; `retiring` is set from that write until the node
/// has moved past the instruction that made it.
#[derive(Clone, Copy, Debug, PartialEq, Eq, Structural)]
pub struct Registers {
    pub acc: i32,
    pub bak: i32,
    pub pc: usize,
    pub outbox: Option<Pending>,
    pub retiring: bool,
}

/// Whether a reader on side `side` of the writer may take `p` now.
pub open spec fn deliverable(p: Option<Pending>, side: Location) -> bool {
    match p {
        Some(q) => !q.fresh && is_direction(side) && (q.target == side || q.target is ANY),
        None => false,
    }
}

/// The pending write is aimed down or at `ANY`, so an output stream below
/// takes it.
pub open spec fn hands_down(p: Option<Pending>) -> bool {
    match p {
        Some(q) => q.target is DOWN || q.target is ANY,
        None => false,
    }
}

/// A computing node's registers once an output stream has taken its
/// pending write: the outbox is empty and the node is past the instruction
/// that made the write.
pub open spec fn handed_down(c: Compute) -> Registers {
    Registers {
        outbox: None,
        retiring: false,
        pc: next_pc(c.regs.pc, c.instructions@.len() as usize),
        ..c.regs
    }
}

/// What is left of node `a` after a neighbour on side `side` has read from
/// it: a computing node's pending write is gone once taken, a storage node
/// has lost its most recent value, and a node that gave nothing is as it
/// was.
pub open spec fn node_after_read(a: Node, side: Location, b: Node) -> bool {
    if read_result(a, side) is None {
        b == a
    } else {
        &&& same_cell(a, b)
        &&& a is Computing ==> b->Computing_0.regs == (Registers { outbox: None, ..a->Computing_0.regs })
        &&& a is Storage ==> b->Storage_0.stack@ == a->Storage_0.stack@.drop_first()
    }
}

/// The outbox with its fresh mark cleared.
pub open spec fn matured(p: Option<Pending>) -> Option<Pending> {
    match p {
        Some(q) => Some(Pending { fresh: false, ..q }),
        None => None,
    }
}


/// The registers of a node that has not run yet.
pub open spec fn zeroed() -> Registers {
    Registers { acc: 0, bak: 0, pc: 0, outbox: None, retiring: false }
}

/// A node that runs a program.
pub struct Compute {
    pub index: usize,
    pub regs: Registers,
    pub instructions: Vec<Instruction>,
    pub loaded: bool,
}

/// A node that stores values: the last value taken in is the first handed out.
pub struct Memory {
    pub index: usize,
    pub stack: VecDeque<i32>,
}

/// A node that does nothing and never yields a value.
pub struct Corrupted(pub usize);

/// One cell of the grid.
pub enum Node {
    Computing(Compute),
    Storage(Memory),
    Disabled(Corrupted),
}

/// Every instruction of `p` can run in a program of `p`'s length.
pub open spec fn program_fits(p: Seq<Instruction>) -> bool {
    forall|k: int| 0 <= k < p.len() ==> #[trigger] fits(p[k], p.len() as usize)
}

/// The registers after one tick of a computing node, given what its read
/// operand produced.
pub open spec fn compute_step(c: Compute, input: Option<i32>) -> Registers {
    let len = c.instructions@.len() as usize;
    if c.regs.outbox.is_some() {
        Registers { outbox: matured(c.regs.outbox), ..c.regs }
    } else if c.regs.retiring {
        Registers { retiring: false, pc: next_pc(c.regs.pc, len), ..c.regs }
    } else if len == 0 {
        c.regs
    } else {
        execute_spec(c.instructions@[c.regs.pc as int], c.regs, input, len)
    }
}

/// The port a computing node reads from in its coming tick, if any.
pub open spec fn compute_wants(c: Compute) -> Option<Location> {
    if c.regs.outbox.is_none() && !c.regs.retiring && c.instructions@.len() > 0 {
        source_of(c.instructions@[c.regs.pc as int])
    } else {
        None
    }
}

/// Whether every instruction of `p` can run in a program of `p`'s length.
fn all_fit(p: &Vec<Instruction>) -> (r: bool)
    ensures
        r == program_fits(p@),
{
    let len = p.len();
    let mut k: usize = 0;
    while k < len
        invariant
            len == p@.len(),
            k <= len,
            forall|j: int| 0 <= j < k ==> #[trigger] fits(p@[j], len),
        decreases len - k,
    {
        if !p[k].fits(len) {
            assert(!fits(p@[k as int], p@.len() as usize));
            return false;
        }
        k += 1;
    }
    true
}

impl Compute {
    pub open spec fn wf(&self) -> bool {
        &&& program_fits(self.instructions@)
        &&& (self.instructions@.len() == 0 ==> self.regs.pc == 0)
        &&& (self.instructions@.len() > 0 ==> self.regs.pc < self.instructions@.len())
        &&& (self.regs.outbox.is_some() ==> self.regs.retiring)
        &&& (self.regs.retiring ==> self.instructions@.len() > 0)
        &&& (!self.loaded ==> self.instructions@.len() == 0 && self.regs == zeroed())
    }

    /// A node at `index` with zeroed registers, an empty outbox and no program.
    pub fn new(index: usize) -> (r: Compute)
        ensures
            r.index == index,
            r.regs == (Registers { acc: 0, bak: 0, pc: 0, outbox: None, retiring: false }),
            r.instructions@.len() == 0,
            !r.loaded,
            r.wf(),
    {
        Compute {
            index,
            regs: Registers { acc: 0, bak: 0, pc: 0, outbox: None, retiring: false },
            instructions: Vec::new(),
            loaded: false,
        }
    }

    pub fn get_index(&self) -> (r: usize)
        ensures
            r == self.index,
    {
        self.index
    }

    /// A reader on side `side` of this node takes the pending value, if it is
    /// meant for that side and was not written during the current tick.
    pub fn read_from(&mut self, side: Location) -> (r: Option<i32>)
        ensures
            final(self).index == old(self).index,
            final(self).instructions@ == old(self).instructions@,
            final(self).loaded == old(self).loaded,
            deliverable(old(self).regs.outbox, side) ==> {
                &&& r == Some(old(self).regs.outbox.unwrap().value)
                &&& final(self).regs == (Registers { outbox: None, ..old(self).regs })
            },
            !deliverable(old(self).regs.outbox, side) ==> {
                &&& r.is_none()
                &&& *final(self) == *old(self)
            },
            old(self).wf() ==> final(self).wf(),
    {
        match self.regs.outbox {
            Some(p) => {
                if !p.fresh && is_dir(side) && (p.target == side || p.target == Location::ANY) {
                    self.regs.outbox = None;
                    Some(p.value)
                } else {
                    None
                }
            },
            None => None,
        }
    }

    /// Start of a tick: a value written during the previous tick becomes
    /// readable.
    pub fn mature(&mut self)
        ensures
            final(self).index == old(self).index,
            final(self).instructions@ == old(self).instructions@,
            final(self).loaded == old(self).loaded,
            final(self).regs == (Registers { outbox: matured(old(self).regs.outbox), ..old(self).regs }),
            old(self).wf() ==> final(self).wf(),
    {
        if let Some(p) = self.regs.outbox {
            self.regs.outbox = Some(Pending { fresh: false, ..p });
        }
    }

    /// The port this node reads from in its coming tick, if any.
    pub fn wants(&self) -> (r: Option<Location>)
        requires
            self.wf(),
        ensures
            r == compute_wants(*self),
    {
        if self.regs.outbox.is_none() && !self.regs.retiring && self.instructions.len() > 0 {
            self.instructions[self.regs.pc].source()
        } else {
            None
        }
    }

    /// One tick of this node. While a write is pending only its fresh mark clears; once
    /// it has been taken the node moves past the instruction that made it;
    /// otherwise the current instruction runs, with `input` as the value of
    /// its read operand.
    pub fn update(&mut self, input: Option<i32>)
        requires
            old(self).wf(),
        ensures
            final(self).wf(),
            final(self).index == old(self).index,
            final(self).instructions@ == old(self).instructions@,
            final(self).loaded == old(self).loaded,
            final(self).regs == compute_step(*old(self), input),
            old(self).regs.outbox.is_some() ==> final(self).regs == (Registers { outbox: matured(old(self).regs.outbox), ..old(self).regs }),
    {
        let len = self.instructions.len();
        if let Some(p) = self.regs.outbox {
            self.regs.outbox = Some(Pending { fresh: false, ..p });
            return;
        }
        if self.regs.retiring {
            self.regs.retiring = false;
            self.regs.pc = if self.regs.pc + 1 < len { self.regs.pc + 1 } else { 0 };
            return;
        }
        if len == 0 {
            return;
        }
        let pc = self.regs.pc;
        assert(fits(self.instructions@[pc as int], len));
        self.instructions[pc].execute(&mut self.regs, input, len);
    }

    /// Attaches a program to a node that has none yet. Refused when a program
    /// was attached before, or when an instruction cannot run in it.
    pub fn try_set_instructions(&mut self, instructions: Vec<Instruction>) -> (r: Result<(), LoadError>)
        requires
            old(self).wf(),
        ensures
            final(self).wf(),
            final(self).index == old(self).index,
            old(self).loaded ==> r == Err::<(), LoadError>(LoadError::AlreadyLoaded) && *final(self) == *old(self),
            !old(self).loaded && !program_fits(instructions@) ==> r == Err::<(), LoadError>(LoadError::UnfitProgram) && *final(self) == *old(self),
            !old(self).loaded && program_fits(instructions@) ==> {
                &&& r is Ok
                &&& final(self).instructions@ == instructions@
                &&& final(self).loaded
                &&& final(self).regs == old(self).regs
            },
    {
        if self.loaded {
            return Err(LoadError::AlreadyLoaded);
        }
        if !all_fit(&instructions) {
            return Err(LoadError::UnfitProgram);
        }
        self.instructions = instructions;
        self.loaded = true;
        Ok(())
    }
}

impl Memory {
    /// An empty storage node at `index`.
    pub fn new(index: usize) -> (r: Memory)
        ensures
            r.index == index,
            r.stack@.len() == 0,
    {
        Memory { index, stack: VecDeque::new() }
    }

    pub fn get_index(&self) -> (r: usize)
        ensures
            r == self.index,
    {
        self.index
    }

    /// Hands out the most recently stored value, if any.
    pub fn read_from(&mut self) -> (r: Option<i32>)
        ensures
            final(self).index == old(self).index,
            old(self).stack@.len() == 0 ==> r.is_none() && *final(self) == *old(self),
            old(self).stack@.len() > 0 ==> {
                &&& r == Some(old(self).stack@[0])
                &&& final(self).stack@ == old(self).stack@.drop_first()
            },
    {
        if self.stack.len() == 0 {
            return None;
        }
        self.stack.pop_front()
    }

    /// Stores a value in front of all others.
    pub fn push(&mut self, value: i32)
        ensures
            final(self).index == old(self).index,
            final(self).stack@ == seq![value] + old(self).stack@,
    {
        self.stack.push_front(value);
    }
}

impl Corrupted {
    pub fn new(index: usize) -> (r: Corrupted)
        ensures
            r.0 == index,
    {
        Corrupted(index)
    }

    pub fn get_index(&self) -> (r: usize)
        ensures
            r == self.0,
    {
        self.0
    }
}

/// What a reader on side `side` of `n` gets from it now.
pub open spec fn read_result(n: Node, side: Location) -> Option<i32> {
    match n {
        Node::Computing(c) => if deliverable(c.regs.outbox, side) {
            Some(c.regs.outbox.unwrap().value)
        } else {
            None
        },
        Node::Storage(m) => if m.stack@.len() > 0 { Some(m.stack@[0]) } else { None },
        Node::Disabled(_) => None,
    }
}

/// `b` is `a` with at most its registers' outbox, its registers as a whole
/// through a step, or its stored values changed: position, kind and
/// program stay.
pub open spec fn same_cell(a: Node, b: Node) -> bool {
    &&& a.index_of() == b.index_of()
    &&& a.kind() == b.kind()
    &&& (a is Computing ==> b->Computing_0.instructions@ == a->Computing_0.instructions@
        && b->Computing_0.loaded == a->Computing_0.loaded)
}

impl Node {
    pub open spec fn index_of(self) -> usize {
        match self {
            Node::Computing(c) => c.index,
            Node::Storage(m) => m.index,
            Node::Disabled(d) => d.0,
        }
    }

    pub open spec fn kind(self) -> NodeType {
        match self {
            Node::Computing(_) => NodeType::TILE_COMPUTE,
            Node::Storage(_) => NodeType::TILE_MEMORY,
            Node::Disabled(_) => NodeType::TILE_DAMAGED,
        }
    }

    pub open spec fn wf(self) -> bool {
        match self {
            Node::Computing(c) => c.wf(),
            _ => true,
        }
    }

    /// The node that a grid cell of kind `kind` at `index` starts as.
    pub fn new(kind: NodeType, index: usize) -> (r: Node)
        ensures
            r.index_of() == index,
            r.kind() == kind,
            r.wf(),
            r matches Node::Computing(c) ==> c.regs == zeroed() && !c.loaded,
            r matches Node::Storage(m) ==> m.stack@.len() == 0,
    {
        match kind {
            NodeType::TILE_COMPUTE => Node::Computing(Compute::new(index)),
            NodeType::TILE_MEMORY => Node::Storage(Memory::new(index)),
            NodeType::TILE_DAMAGED => Node::Disabled(Corrupted::new(index)),
        }
    }

    pub fn get_index(&self) -> (r: usize)
        ensures
            r == self.index_of(),
    {
        match self {
            Node::Computing(c) => c.get_index(),
            Node::Storage(m) => m.get_index(),
            Node::Disabled(d) => d.get_index(),
        }
    }

    /// A neighbour on side `side` of this node reads from it: a computing
    /// node hands over its pending write if that is meant for the side and
    /// was not written this tick; a storage node hands out its most recent
    /// value; a disabled node never yields one.
    pub fn read_from(&mut self, side: Location) -> (r: Option<i32>)
        requires
            old(self).wf(),
        ensures
            r == read_result(*old(self), side),
            node_after_read(*old(self), side, *final(self)),
            same_cell(*old(self), *final(self)),
            final(self).wf(),
            *old(self) matches Node::Computing(c) ==> final(self)->Computing_0.regs == (if r.is_some() {
                Registers { outbox: None, ..c.regs }
            } else {
                c.regs
            }),
            *old(self) matches Node::Storage(m) ==> final(self)->Storage_0.stack@ == (if r.is_some() {
                m.stack@.drop_first()
            } else {
                m.stack@
            }),
    {
        match self {
            Node::Computing(c) => c.read_from(side),
            Node::Storage(m) => m.read_from(),
            Node::Disabled(_) => None,
        }
    }

    /// Whether a neighbour on side `side` would get a value by reading now.
    pub fn offers(&self, side: Location) -> (r: bool)
        ensures
            r == read_result(*self, side).is_some(),
    {
        match self {
            Node::Computing(c) => match c.regs.outbox {
                Some(p) => !p.fresh && is_dir(side) && (p.target == side || p.target == Location::ANY),
                None => false,
            },
            Node::Storage(m) => m.stack.len() > 0,
            Node::Disabled(_) => false,
        }
    }

    /// Like `read_from`, but only a computing node's pending write can be
    /// taken: this is how a storage node pulls values in.
    pub fn take_pending(&mut self, side: Location) -> (r: Option<i32>)
        requires
            old(self).wf(),
        ensures
            (*old(self)) is Computing ==> r == read_result(*old(self), side),
            !((*old(self)) is Computing) ==> r.is_none(),
            same_cell(*old(self), *final(self)),
            final(self).wf(),
            *old(self) matches Node::Computing(c) ==> final(self)->Computing_0.regs == (if r.is_some() {
                Registers { outbox: None, ..c.regs }
            } else {
                c.regs
            }),
            !((*old(self)) is Computing) ==> *final(self) == *old(self),
            r.is_none() ==> *final(self) == *old(self),
    {
        match self {
            Node::Computing(c) => c.read_from(side),
            _ => None,
        }
    }

    /// Hands a pending write aimed down (or at `ANY`) to the output stream
    /// below, which takes it at once, fresh or not, so the node moves past
    /// the instruction that made it; other nodes give nothing.
    pub fn take_for_output(&mut self) -> (r: Option<i32>)
        requires
            old(self).wf(),
        ensures
            same_cell(*old(self), *final(self)),
            final(self).wf(),
            (*old(self) is Computing && hands_down(old(self)->Computing_0.regs.outbox)) ==> {
                &&& r == Some(old(self)->Computing_0.regs.outbox.unwrap().value)
                &&& final(self)->Computing_0.regs == handed_down(old(self)->Computing_0)
            },
            !(*old(self) is Computing && hands_down(old(self)->Computing_0.regs.outbox)) ==> r.is_none() && *final(self) == *old(self),
    {
        match self {
            Node::Computing(c) => match c.regs.outbox {
                Some(p) => {
                    if p.target == Location::DOWN || p.target == Location::ANY {
                        let len = c.instructions.len();
                        c.regs.outbox = None;
                        c.regs.retiring = false;
                        c.regs.pc = if c.regs.pc + 1 < len { c.regs.pc + 1 } else { 0 };
                        Some(p.value)
                    } else {
                        None
                    }
                },
                None => None,
            },
            _ => None,
        }
    }

    /// Start of a tick: a pending write from the previous tick becomes
    /// readable.
    pub fn mature(&mut self)
        requires
            old(self).wf(),
        ensures
            same_cell(*old(self), *final(self)),
            final(self).wf(),
            *old(self) matches Node::Computing(c) ==> final(self)->Computing_0.regs == (Registers {
                outbox: matured(c.regs.outbox),
                ..c.regs
            }),
            !((*old(self)) is Computing) ==> *final(self) == *old(self),
    {
        match self {
            Node::Computing(c) => c.mature(),
            _ => {},
        }
    }

    /// The port this node reads from in its coming tick, if any.
    pub fn wants(&self) -> (r: Option<Location>)
        requires
            self.wf(),
        ensures
            *self matches Node::Computing(c) ==> r == compute_wants(c),
            !((*self) is Computing) ==> r.is_none(),
    {
        match self {
            Node::Computing(c) => c.wants(),
            _ => None,
        }
    }

    /// The accumulator of a computing node; 0 for other nodes.
    pub fn acc(&self) -> (r: i32)
        ensures
            *self matches Node::Computing(c) ==> r == c.regs.acc,
            !((*self) is Computing) ==> r == 0,
    {
        match self {
            Node::Computing(c) => c.regs.acc,
            _ => 0,
        }
    }

    /// One tick of a computing node, given what its read operand produced;
    /// other nodes do not change here.
    pub fn advance(&mut self, input: Option<i32>)
        requires
            old(self).wf(),
        ensures
            same_cell(*old(self), *final(self)),
            final(self).wf(),
            *old(self) matches Node::Computing(c) ==> final(self)->Computing_0.regs == compute_step(c, input),
            !((*old(self)) is Computing) ==> *final(self) == *old(self),
    {
        match self {
            Node::Computing(c) => c.update(input),
            _ => {},
        }
    }

    /// Stores a value in a storage node; other nodes do not change.
    pub fn store(&mut self, value: i32)
        ensures
            same_cell(*old(self), *final(self)),
            old(self).wf() ==> final(self).wf(),
            *old(self) matches Node::Storage(m) ==> final(self)->Storage_0.stack@ == seq![value] + m.stack@,
            !((*old(self)) is Storage) ==> *final(self) == *old(self),
    {
        match self {
            Node::Storage(m) => m.push(value),
            _ => {},
        }
    }

    /// Attaches a program; only a computing node takes one.
    pub fn try_set_instructions(&mut self, instructions: Vec<Instruction>) -> (r: Result<(), LoadError>)
        requires
            old(self).wf(),
        ensures
            final(self).wf(),
            final(self).index_of() == old(self).index_of(),
            final(self).kind() == old(self).kind(),
            !((*old(self)) is Computing) ==> r == Err::<(), LoadError>(LoadError::NotComputing) && *final(self) == *old(self),
            *old(self) matches Node::Computing(c) ==> {
                &&& c.loaded ==> r == Err::<(), LoadError>(LoadError::AlreadyLoaded) && *final(self) == *old(self)
                &&& !c.loaded && !program_fits(instructions@) ==> r == Err::<(), LoadError>(LoadError::UnfitProgram) && *final(self) == *old(self)
                &&& !c.loaded && program_fits(instructions@) ==> {
                    &&& r is Ok
                    &&& final(self)->Computing_0.instructions@ == instructions@
                    &&& final(self)->Computing_0.loaded
                    &&& final(self)->Computing_0.regs == c.regs
                }
            },
    {
        match self {
            Node::Computing(c) => c.try_set_instructions(instructions),
            _ => Err(LoadError::NotComputing),
        }
    }
}

/// A computing node whose outbox holds a value does not move its program
/// counter: not when it steps, not when the value matures at the start of a
/// tick, and not when a neighbour reads from it.
pub proof fn lemma_pending_write_holds_pc(c: Compute, input: Option<i32>, side: Location)
    requires
        c.wf(),
        c.regs.outbox is Some,
    ensures
        compute_step(c, input).pc == c.regs.pc,
        (Registers { outbox: matured(c.regs.outbox), ..c.regs }).pc == c.regs.pc,
        (if deliverable(c.regs.outbox, side) { Registers { outbox: None, ..c.regs } } else { c.regs }).pc == c.regs.pc,
{
}

/// A value that a step writes into an empty outbox cannot be read during
/// that tick, from any side; once the next tick has begun it can be read
/// from the side it was written to, and it stays readable, unchanged,
/// through further ticks and through reads from other sides until one read
/// takes it.
pub proof fn lemma_write_visible_from_next_tick(c: Compute, input: Option<i32>, side: Location, other: Location)
    requires
        c.wf(),
        c.regs.outbox is None,
        compute_step(c, input).outbox is Some,
        !deliverable(matured(compute_step(c, input).outbox), other),
    ensures
        ({
            let o = compute_step(c, input).outbox;
            let p = o.unwrap();
            &&& !deliverable(o, side)
            &&& forall|d: Location| is_direction(d) && (p.target == d || p.target is ANY) ==> #[trigger] deliverable(matured(o), d)
            &&& matured(matured(o)) == matured(o)
            &&& matured(o).unwrap().value == p.value
            &&& compute_step(Compute { regs: Registers { outbox: matured(o), ..compute_step(c, input) }, ..c }, input).outbox == matured(o)
        }),
{
}

/// A value written to `ANY` is taken by at most one reader: once a read from
/// one side has taken it, the outbox is empty and no read from any side, in
/// this tick or a later one, can yield it again.
pub proof fn lemma_any_write_taken_once(c: Compute, first: Location, second: Location)
    requires
        c.regs.outbox matches Some(p) && p.target is ANY,
        deliverable(c.regs.outbox, first),
    ensures
        ({
            let after = Compute { regs: Registers { outbox: None, ..c.regs }, ..c };
            &&& read_result(Node::Computing(after), second).is_none()
            &&& matured(after.regs.outbox).is_none()
        }),
{
}

/// How one step of a computing node touches its outbox: a pending write
/// leaves the whole step without effect, and a new write can only come from
/// a node that was neither holding nor retiring one, and is fresh.
pub proof fn lemma_step_outbox(c: Compute, input: Option<i32>)
    requires
        c.wf(),
    ensures
        c.regs.outbox is Some ==> compute_step(c, input) == (Registers { outbox: matured(c.regs.outbox), ..c.regs }),
        c.regs.outbox is None ==> match compute_step(c, input).outbox {
            Some(p) => p.fresh && !c.regs.retiring,
            None => true,
        },
{
}

} // verus!
