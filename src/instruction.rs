use vstd::prelude::*;
use vstd::string::StringSliceAdditionalSpecFns;
use vstd::utf8::encode_utf8;
use crate::node::{Location, Pending, Registers, location_of, decimal_of, same_bytes};

verus! {

/// One instruction of a computing node's program.
#[derive(Clone, Debug)]
pub enum Instruction {
    NOP,
    MOV(Location, Location),
    SWP,
    SAV,
    ADD(Location),
    SUB(Location),
    NEG,
    JMP(Label),
    JEZ(Label),
    JNZ(Label),
    JGZ(Label),
    JLZ(Label),
    JRO(i32),
}

/// A jump target: its name and the index of the instruction it marks.
#[derive(Clone, Debug)]
pub struct Label {
    pub name: String,
    pub offset: usize,
}

/// A token that does not name a port or a number.
#[derive(Debug)]
pub struct ParseError(pub String);

/// `b` is the three-letter ASCII word `c0 c1 c2`.
pub open spec fn is_op(b: Seq<u8>, c0: u8, c1: u8, c2: u8) -> bool {
    b == seq![c0, c1, c2]
}

/// `k` is the first label of `labels` named `name`.
pub open spec fn first_label(labels: Seq<Label>, name: Seq<u8>, k: int) -> bool {
    &&& 0 <= k < labels.len()
    &&& encode_utf8(labels[k].name@) == name
    &&& forall|j: int| 0 <= j < k ==> encode_utf8((#[trigger] labels[j]).name@) != name
}

pub open spec fn no_label(labels: Seq<Label>, name: Seq<u8>) -> bool {
    forall|j: int| 0 <= j < labels.len() ==> encode_utf8((#[trigger] labels[j]).name@) != name
}

/// `r` is a jump to the first label named by `w`, with that label's name
/// and offset.
pub open spec fn jump_to(labels: Seq<Label>, w: Seq<u8>, r: Label) -> bool {
    exists|k: int| first_label(labels, w, k) && r.offset == labels[k].offset && r.name@ == labels[k].name@
}

/// `r` is what the words of one line say: an opcode (`NOP`, `MOV`, `SWP`,
/// `SAV`, `ADD`, `SUB`, `NEG`, `JMP`, `JEZ`, `JNZ`, `JGZ`, `JLZ`, `JRO`,
/// spelled here in ASCII codes) followed by exactly its operands: ports for
/// `MOV`, `ADD` and `SUB`, a label name for the conditional and plain jumps,
/// a decimal offset for `JRO`.
#[verifier::opaque]
pub open spec fn parsed_as(words: Seq<&str>, labels: Seq<Label>, r: Instruction) -> bool {
    let n = words.len();
    let op = if n > 0 { words[0].spec_bytes() } else { Seq::empty() };
    let a = if n > 1 { words[1].spec_bytes() } else { Seq::empty() };
    let b = if n > 2 { words[2].spec_bytes() } else { Seq::empty() };
    if n == 0 {
        false
    } else if is_op(op, 78, 79, 80) {
        n == 1 && r is NOP
    } else if is_op(op, 77, 79, 86) {
        n == 3 && location_of(a) is Some && location_of(b) is Some
            && r == Instruction::MOV(location_of(a).unwrap(), location_of(b).unwrap())
    } else if is_op(op, 83, 87, 80) {
        n == 1 && r is SWP
    } else if is_op(op, 83, 65, 86) {
        n == 1 && r is SAV
    } else if is_op(op, 65, 68, 68) {
        n == 2 && location_of(a) is Some && r == Instruction::ADD(location_of(a).unwrap())
    } else if is_op(op, 83, 85, 66) {
        n == 2 && location_of(a) is Some && r == Instruction::SUB(location_of(a).unwrap())
    } else if is_op(op, 78, 69, 71) {
        n == 1 && r is NEG
    } else if is_op(op, 74, 77, 80) {
        n == 2 && (r matches Instruction::JMP(l) && jump_to(labels, a, l))
    } else if is_op(op, 74, 69, 90) {
        n == 2 && (r matches Instruction::JEZ(l) && jump_to(labels, a, l))
    } else if is_op(op, 74, 78, 90) {
        n == 2 && (r matches Instruction::JNZ(l) && jump_to(labels, a, l))
    } else if is_op(op, 74, 71, 90) {
        n == 2 && (r matches Instruction::JGZ(l) && jump_to(labels, a, l))
    } else if is_op(op, 74, 76, 90) {
        n == 2 && (r matches Instruction::JLZ(l) && jump_to(labels, a, l))
    } else if is_op(op, 74, 82, 79) {
        n == 2 && decimal_of(a) is Some && r == Instruction::JRO(decimal_of(a).unwrap())
    } else {
        false
    }
}

fn op_is(b: &[u8], c0: u8, c1: u8, c2: u8) -> (r: bool)
    ensures
        r == is_op(b@, c0, c1, c2),
{
    if b.len() == 3 && b[0] == c0 && b[1] == c1 && b[2] == c2 {
        assert(b@ =~= seq![c0, c1, c2]);
        true
    } else {
        false
    }
}

/// The first label named `word`, copied.
fn find_label(labels: &Vec<Label>, word: &str) -> (r: Option<Label>)
    ensures
        r matches Some(l) ==> jump_to(labels@, word.spec_bytes(), l),
        r is None ==> no_label(labels@, word.spec_bytes()),
{
    let w = word.as_bytes();
    let mut k: usize = 0;
    while k < labels.len()
        invariant
            w@ == word.spec_bytes(),
            k <= labels@.len(),
            forall|j: int| 0 <= j < k ==> encode_utf8((#[trigger] labels@[j]).name@) != w@,
        decreases labels@.len() - k,
    {
        if same_bytes(labels[k].name.as_str().as_bytes(), w) {
            let l = Label { name: labels[k].name.clone(), offset: labels[k].offset };
            assert(first_label(labels@, w@, k as int));
            return Some(l);
        }
        k += 1;
    }
    None
}

/// Clamps a mathematical integer into the `i32` range.
pub open spec fn saturate(x: int) -> i32 {
    if x > i32::MAX { i32::MAX } else if x < i32::MIN { i32::MIN } else { x as i32 }
}

/// The program counter after `pc`, wrapping to 0 past the last instruction.
pub open spec fn next_pc(pc: usize, len: usize) -> usize {
    if pc + 1 < len { (pc + 1) as usize } else { 0 }
}

/// Where `JRO` lands: `pc + offset`, kept within the program.
pub open spec fn relative_pc(pc: usize, offset: i32, len: usize) -> usize {
    let t = pc + offset;
    if t < 0 { 0 } else if t >= len { (len - 1) as usize } else { t as usize }
}

/// The instruction can run in a program of `len` instructions: its jump
/// target lies inside the program and it never writes into a constant.
pub open spec fn fits(ins: Instruction, len: usize) -> bool {
    match ins {
        Instruction::MOV(_, dst) => !(dst is CONSTANT),
        Instruction::JMP(l) => l.offset < len,
        Instruction::JEZ(l) => l.offset < len,
        Instruction::JNZ(l) => l.offset < len,
        Instruction::JGZ(l) => l.offset < len,
        Instruction::JLZ(l) => l.offset < len,
        _ => true,
    }
}

/// The read operand of an instruction, if it has one.
pub open spec fn source_of(ins: Instruction) -> Option<Location> {
    match ins {
        Instruction::MOV(src, _) => Some(src),
        Instruction::ADD(src) => Some(src),
        Instruction::SUB(src) => Some(src),
        _ => None,
    }
}

pub open spec fn jump_if(r: Registers, cond: bool, target: usize, len: usize) -> Registers {
    Registers { pc: if cond { target } else { next_pc(r.pc, len) }, ..r }
}

/// The registers after one execution of `ins`, given the value its read
/// operand produced (`None`: nothing was available, and the node stalls).
pub open spec fn execute_spec(ins: Instruction, r: Registers, input: Option<i32>, len: usize) -> Registers {
    let next = next_pc(r.pc, len);
    match ins {
        Instruction::NOP => Registers { pc: next, ..r },
        Instruction::MOV(_, dst) => match input {
            None => r,
            Some(v) => match dst {
                Location::ACC => Registers { acc: v, pc: next, ..r },
                Location::NIL => Registers { pc: next, ..r },
                Location::CONSTANT(_) => r,
                _ => Registers {
                    outbox: Some(Pending { value: v, target: dst, fresh: true }),
                    retiring: true,
                    ..r
                },
            },
        },
        Instruction::SWP => Registers { acc: r.bak, bak: r.acc, pc: next, ..r },
        Instruction::SAV => Registers { bak: r.acc, pc: next, ..r },
        Instruction::ADD(_) => match input {
            None => r,
            Some(v) => Registers { acc: saturate(r.acc + v), pc: next, ..r },
        },
        Instruction::SUB(_) => match input {
            None => r,
            Some(v) => Registers { acc: saturate(r.acc - v), pc: next, ..r },
        },
        Instruction::NEG => Registers { acc: saturate(-r.acc), pc: next, ..r },
        Instruction::JMP(l) => Registers { pc: l.offset, ..r },
        Instruction::JEZ(l) => jump_if(r, r.acc == 0, l.offset, len),
        Instruction::JNZ(l) => jump_if(r, r.acc != 0, l.offset, len),
        Instruction::JGZ(l) => jump_if(r, r.acc > 0, l.offset, len),
        Instruction::JLZ(l) => jump_if(r, r.acc < 0, l.offset, len),
        Instruction::JRO(o) => Registers { pc: relative_pc(r.pc, o, len), ..r },
    }
}

fn saturating_sum(a: i32, b: i32, negate_b: bool) -> (r: i32)
    ensures
        r == saturate(if negate_b { a - b } else { a + b }),
{
    let x: i64 = if negate_b { a as i64 - b as i64 } else { a as i64 + b as i64 };
    if x > i32::MAX as i64 {
        i32::MAX
    } else if x < i32::MIN as i64 {
        i32::MIN
    } else {
        x as i32
    }
}

fn advance(pc: usize, len: usize) -> (r: usize)
    requires
        pc < len,
    ensures
        r == next_pc(pc, len),
{
    if pc + 1 < len { pc + 1 } else { 0 }
}

impl Instruction {
    /// Reads one instruction from the words of a line. Jump targets are
    /// looked up by name in `labels`, the first label of that name winning.
    /// Refused for an unknown opcode, a wrong number of operands, an operand
    /// that is no port, an unknown label or an offset that is no number.
    pub fn parse(words: &Vec<&str>, labels: &Vec<Label>) -> (r: Result<Instruction, ParseError>)
        ensures
            r matches Ok(i) ==> parsed_as(words@, labels@, i),
            r is Err ==> forall|i: Instruction| !parsed_as(words@, labels@, i),
    {
        proof {
            reveal(parsed_as);
        }
        let n = words.len();
        if n == 0 {
            return Err(ParseError(String::new()));
        }
        let op = words[0].as_bytes();
        let bad = ParseError(words[0].to_owned());
        if op_is(op, 78, 79, 80) {
            if n == 1 { Ok(Instruction::NOP) } else { Err(bad) }
        } else if op_is(op, 83, 87, 80) {
            if n == 1 { Ok(Instruction::SWP) } else { Err(bad) }
        } else if op_is(op, 83, 65, 86) {
            if n == 1 { Ok(Instruction::SAV) } else { Err(bad) }
        } else if op_is(op, 78, 69, 71) {
            if n == 1 { Ok(Instruction::NEG) } else { Err(bad) }
        } else if op_is(op, 77, 79, 86) {
            if n != 3 {
                return Err(bad);
            }
            let a = Location::parse(words[1])?;
            let b = Location::parse(words[2])?;
            Ok(Instruction::MOV(a, b))
        } else if op_is(op, 65, 68, 68) || op_is(op, 83, 85, 66) {
            if n != 2 {
                return Err(bad);
            }
            let a = Location::parse(words[1])?;
            if op_is(op, 65, 68, 68) { Ok(Instruction::ADD(a)) } else { Ok(Instruction::SUB(a)) }
        } else if op_is(op, 74, 82, 79) {
            if n != 2 {
                return Err(bad);
            }
            match Location::parse(words[1]) {
                Ok(Location::CONSTANT(o)) => Ok(Instruction::JRO(o)),
                _ => Err(bad),
            }
        } else if op_is(op, 74, 77, 80) || op_is(op, 74, 69, 90) || op_is(op, 74, 78, 90)
            || op_is(op, 74, 71, 90) || op_is(op, 74, 76, 90) {
            if n != 2 {
                return Err(bad);
            }
            match find_label(labels, words[1]) {
                Some(l) => {
                    if op_is(op, 74, 77, 80) {
                        Ok(Instruction::JMP(l))
                    } else if op_is(op, 74, 69, 90) {
                        Ok(Instruction::JEZ(l))
                    } else if op_is(op, 74, 78, 90) {
                        Ok(Instruction::JNZ(l))
                    } else if op_is(op, 74, 71, 90) {
                        Ok(Instruction::JGZ(l))
                    } else {
                        Ok(Instruction::JLZ(l))
                    }
                },
                None => Err(ParseError(words[1].to_owned())),
            }
        } else {
            Err(bad)
        }
    }

    /// The read operand of this instruction, if it has one.
    pub fn source(&self) -> (r: Option<Location>)
        ensures
            r == source_of(*self),
    {
        match self {
            Instruction::MOV(src, _) => Some(*src),
            Instruction::ADD(src) => Some(*src),
            Instruction::SUB(src) => Some(*src),
            _ => None,
        }
    }

    /// Whether the instruction can run in a program of `len` instructions.
    pub fn fits(&self, len: usize) -> (r: bool)
        ensures
            r == fits(*self, len),
    {
        match self {
            Instruction::MOV(_, dst) => !matches!(dst, Location::CONSTANT(_)),
            Instruction::JMP(l) => l.offset < len,
            Instruction::JEZ(l) => l.offset < len,
            Instruction::JNZ(l) => l.offset < len,
            Instruction::JGZ(l) => l.offset < len,
            Instruction::JLZ(l) => l.offset < len,
            _ => true,
        }
    }

    /// Runs this instruction once against a node's registers. `input` is what
    /// the read operand produced this tick; `len` is the program's length.
    pub fn execute(&self, regs: &mut Registers, input: Option<i32>, len: usize)
        requires
            old(regs).pc < len,
            fits(*self, len),
        ensures
            *final(regs) == execute_spec(*self, *old(regs), input, len),
    {
        let r = *regs;
        let next = advance(r.pc, len);
        match self {
            Instruction::NOP => {
                regs.pc = next;
            },
            Instruction::MOV(_, dst) => {
                if let Some(v) = input {
                    match *dst {
                        Location::ACC => {
                            regs.acc = v;
                            regs.pc = next;
                        },
                        Location::NIL => {
                            regs.pc = next;
                        },
                        Location::CONSTANT(_) => {},
                        _ => {
                            regs.outbox = Some(Pending { value: v, target: *dst, fresh: true });
                            regs.retiring = true;
                        },
                    }
                }
            },
            Instruction::SWP => {
                regs.acc = r.bak;
                regs.bak = r.acc;
                regs.pc = next;
            },
            Instruction::SAV => {
                regs.bak = r.acc;
                regs.pc = next;
            },
            Instruction::ADD(_) => {
                if let Some(v) = input {
                    regs.acc = saturating_sum(r.acc, v, false);
                    regs.pc = next;
                }
            },
            Instruction::SUB(_) => {
                if let Some(v) = input {
                    regs.acc = saturating_sum(r.acc, v, true);
                    regs.pc = next;
                }
            },
            Instruction::NEG => {
                regs.acc = saturating_sum(0, r.acc, true);
                regs.pc = next;
            },
            Instruction::JMP(l) => {
                regs.pc = l.offset;
            },
            Instruction::JEZ(l) => {
                regs.pc = if r.acc == 0 { l.offset } else { next };
            },
            Instruction::JNZ(l) => {
                regs.pc = if r.acc != 0 { l.offset } else { next };
            },
            Instruction::JGZ(l) => {
                regs.pc = if r.acc > 0 { l.offset } else { next };
            },
            Instruction::JLZ(l) => {
                regs.pc = if r.acc < 0 { l.offset } else { next };
            },
            Instruction::JRO(o) => {
                let t: i128 = r.pc as i128 + *o as i128;
                regs.pc = if t < 0 {
                    0
                } else if t >= len as i128 {
                    len - 1
                } else {
                    t as usize
                };
            },
        }
    }
}

} // verus!
