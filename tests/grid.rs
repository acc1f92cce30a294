use tis100::instruction::{Instruction, Label};
use tis100::machine::{LoadError, Machine, Neighbor};
use tis100::node::{Compute, Location, Node, Pending, Registers};
use tis100::puzzle::{layout_from_codes, AnswerStream, NodeType, Puzzle, StreamType};

fn layout_with(cells: &[(usize, NodeType)]) -> Vec<NodeType> {
    let mut layout = vec![NodeType::TILE_DAMAGED; 12];
    for (i, t) in cells {
        layout[*i] = *t;
    }
    layout
}

fn input(col: usize, values: Vec<i32>) -> AnswerStream {
    AnswerStream::new(StreamType::STREAM_INPUT, "in".to_string(), col, values)
}

fn output(col: usize, values: Vec<i32>) -> AnswerStream {
    AnswerStream::new(StreamType::STREAM_OUTPUT, "out".to_string(), col, values)
}

fn machine(layout: Vec<NodeType>, streams: Vec<AnswerStream>) -> Machine {
    match Machine::new(Puzzle { streams, layout }) {
        Ok(m) => m,
        Err(e) => panic!("load failed: {:?}", e),
    }
}

fn regs(m: &Machine, i: usize) -> Registers {
    match &m.nodes[i] {
        Node::Computing(c) => c.regs,
        _ => panic!("not a computing node"),
    }
}

fn stack(m: &Machine, i: usize) -> Vec<i32> {
    match &m.nodes[i] {
        Node::Storage(s) => s.stack.iter().copied().collect(),
        _ => panic!("not a storage node"),
    }
}

fn label(offset: usize) -> Label {
    Label { name: "L".to_string(), offset }
}

fn run(m: &mut Machine, ticks: usize) {
    for _ in 0..ticks {
        m.update();
    }
}

#[test]
fn relay_input_to_output() {
    let layout = layout_with(&[(0, NodeType::TILE_COMPUTE), (4, NodeType::TILE_COMPUTE), (8, NodeType::TILE_COMPUTE)]);
    let mut m = machine(layout, vec![input(0, vec![3, 7]), output(0, vec![3, 7])]);
    m.load_instructions(0, vec![
        Instruction::MOV(Location::UP, Location::ACC),
        Instruction::MOV(Location::ACC, Location::DOWN),
    ]).unwrap();
    m.load_instructions(4, vec![Instruction::MOV(Location::UP, Location::DOWN)]).unwrap();
    m.load_instructions(8, vec![Instruction::MOV(Location::UP, Location::DOWN)]).unwrap();
    let mut ticks = 0;
    while m.not_complete() {
        assert!(ticks < 100, "did not complete");
        m.update();
        ticks += 1;
    }
    assert_eq!(m.puzzle.streams[1].answers, vec![3, 7]);
    assert_eq!(m.end_results(), vec![vec![], vec![3, 7]]);
    assert_eq!(m.step_count(), ticks);
}

#[test]
fn doubling_stalls_on_disabled_node() {
    let layout = layout_with(&[(0, NodeType::TILE_COMPUTE)]);
    let mut m = machine(layout, vec![output(0, vec![10])]);
    m.load_instructions(0, vec![
        Instruction::MOV(Location::CONSTANT(5), Location::ACC),
        Instruction::SAV,
        Instruction::ADD(Location::ACC),
        Instruction::MOV(Location::ACC, Location::DOWN),
    ]).unwrap();
    run(&mut m, 4);
    let r = regs(&m, 0);
    assert_eq!(r.acc, 10);
    assert_eq!(r.bak, 5);
    assert_eq!(r.pc, 3);
    assert_eq!(r.outbox, Some(Pending { value: 10, target: Location::DOWN, fresh: true }));
    for _ in 0..50 {
        m.update();
        assert!(m.not_complete());
        let r = regs(&m, 0);
        assert_eq!(r.pc, 3);
        assert_eq!(r.outbox.map(|p| p.value), Some(10));
    }
    assert_eq!(m.step_count(), 54);
}

#[test]
fn jro_back_one_spins() {
    let layout = layout_with(&[(5, NodeType::TILE_COMPUTE)]);
    let mut m = machine(layout, vec![output(1, vec![1])]);
    m.load_instructions(5, vec![Instruction::JRO(-1)]).unwrap();
    for _ in 0..30 {
        m.update();
        let r = regs(&m, 5);
        assert_eq!((r.acc, r.bak, r.pc), (0, 0, 0));
        assert!(m.not_complete());
    }
    assert_eq!(m.step_count(), 30);
}

#[test]
fn storage_relays_between_nodes() {
    let layout = layout_with(&[(0, NodeType::TILE_COMPUTE), (4, NodeType::TILE_MEMORY), (8, NodeType::TILE_COMPUTE)]);
    let mut m = machine(layout, vec![]);
    m.load_instructions(0, vec![Instruction::MOV(Location::CONSTANT(7), Location::DOWN), Instruction::JRO(0)]).unwrap();
    m.load_instructions(8, vec![Instruction::MOV(Location::UP, Location::ACC), Instruction::JRO(0)]).unwrap();
    run(&mut m, 10);
    assert_eq!(regs(&m, 8).acc, 7);
    assert_eq!(regs(&m, 8).pc, 1);
    assert_eq!(regs(&m, 0).pc, 1);
    assert_eq!(regs(&m, 0).outbox, None);
    assert!(stack(&m, 4).is_empty());
}

#[test]
fn storage_is_last_in_first_out() {
    let layout = layout_with(&[(0, NodeType::TILE_COMPUTE), (1, NodeType::TILE_MEMORY)]);
    let mut m = machine(layout, vec![]);
    m.load_instructions(0, vec![
        Instruction::MOV(Location::CONSTANT(1), Location::RIGHT),
        Instruction::MOV(Location::CONSTANT(2), Location::RIGHT),
        Instruction::MOV(Location::RIGHT, Location::ACC),
        Instruction::JRO(0),
    ]).unwrap();
    run(&mut m, 30);
    assert_eq!(regs(&m, 0).acc, 2);
    assert_eq!(stack(&m, 1), vec![1]);
}

#[test]
fn write_is_not_readable_in_the_tick_it_is_made() {
    let layout = layout_with(&[(0, NodeType::TILE_COMPUTE), (1, NodeType::TILE_COMPUTE)]);
    let mut m = machine(layout, vec![]);
    m.load_instructions(0, vec![Instruction::MOV(Location::CONSTANT(4), Location::RIGHT), Instruction::JRO(0)]).unwrap();
    m.load_instructions(1, vec![Instruction::MOV(Location::LEFT, Location::ACC), Instruction::JRO(0)]).unwrap();
    m.update();
    assert_eq!(regs(&m, 0).outbox, Some(Pending { value: 4, target: Location::RIGHT, fresh: true }));
    assert_eq!(regs(&m, 1).pc, 0);
    m.update();
    assert_eq!(regs(&m, 1).acc, 4);
    assert_eq!(regs(&m, 0).outbox, None);
    assert_eq!(regs(&m, 0).pc, 0);
    m.update();
    assert_eq!(regs(&m, 0).pc, 1);
}

#[test]
fn any_write_goes_to_one_reader() {
    let layout = layout_with(&[(0, NodeType::TILE_COMPUTE), (1, NodeType::TILE_COMPUTE), (2, NodeType::TILE_COMPUTE)]);
    let mut m = machine(layout, vec![]);
    m.load_instructions(1, vec![Instruction::MOV(Location::CONSTANT(9), Location::ANY), Instruction::JRO(0)]).unwrap();
    m.load_instructions(0, vec![Instruction::MOV(Location::RIGHT, Location::ACC), Instruction::JRO(0)]).unwrap();
    m.load_instructions(2, vec![Instruction::MOV(Location::LEFT, Location::ACC), Instruction::JRO(0)]).unwrap();
    run(&mut m, 10);
    assert_eq!(regs(&m, 0).acc, 9);
    assert_eq!(regs(&m, 0).pc, 1);
    assert_eq!(regs(&m, 2).acc, 0);
    assert_eq!(regs(&m, 2).pc, 0);
}

#[test]
fn pending_write_keeps_pc() {
    let mut c = Compute::new(0);
    c.try_set_instructions(vec![Instruction::MOV(Location::CONSTANT(1), Location::UP), Instruction::NOP]).unwrap();
    c.update(Some(1));
    assert_eq!(c.regs.pc, 0);
    assert!(c.regs.outbox.is_some());
    for _ in 0..5 {
        c.mature();
        c.update(None);
        assert_eq!(c.regs.pc, 0);
    }
    assert_eq!(c.read_from(Location::DOWN), None);
    assert_eq!(c.read_from(Location::UP), Some(1));
    assert_eq!(c.read_from(Location::UP), None);
    c.update(None);
    assert_eq!(c.regs.pc, 1);
}

#[test]
fn new_machine_is_not_complete() {
    let m = machine(vec![NodeType::TILE_COMPUTE; 12], vec![output(2, vec![1, 2])]);
    assert!(m.not_complete());
    assert_eq!(m.step_count(), 0);
}

#[test]
fn new_machine_with_empty_references_is_complete() {
    let m = machine(vec![NodeType::TILE_COMPUTE; 12], vec![input(0, vec![1]), output(2, vec![])]);
    assert!(!m.not_complete());
}

#[test]
fn new_machine_rewinds_streams() {
    let mut out = output(0, vec![5]);
    out.receive(5);
    let m = machine(vec![NodeType::TILE_COMPUTE; 12], vec![out]);
    assert!(m.puzzle.streams[0].answers.is_empty());
    assert!(m.not_complete());
}

#[test]
fn completion_compares_received_with_reference() {
    let mut s = output(0, vec![1, 2]);
    assert!(!s.check_completion());
    s.receive(1);
    assert!(!s.check_completion());
    s.receive(3);
    assert!(!s.check_completion());
    let mut t = output(0, vec![1, 2]);
    t.receive(1);
    t.receive(2);
    assert!(t.check_completion());
    t.receive(2);
    assert!(!t.check_completion());
}

#[test]
fn input_stream_hands_out_each_value_once() {
    let mut s = input(1, vec![4, 5]);
    assert_eq!(s.take_input(), Some(4));
    assert_eq!(s.take_input(), Some(5));
    assert_eq!(s.take_input(), None);
    let mut o = output(1, vec![4]);
    assert_eq!(o.take_input(), None);
}

#[test]
fn neighbours_follow_the_grid() {
    let m = machine(vec![NodeType::TILE_COMPUTE; 12], vec![output(1, vec![]), input(2, vec![]), output(1, vec![])]);
    assert_eq!(m.get_neighbor(5, Location::UP), Some(Neighbor::Cell(1)));
    assert_eq!(m.get_neighbor(5, Location::DOWN), Some(Neighbor::Cell(9)));
    assert_eq!(m.get_neighbor(5, Location::LEFT), Some(Neighbor::Cell(4)));
    assert_eq!(m.get_neighbor(5, Location::RIGHT), Some(Neighbor::Cell(6)));
    assert_eq!(m.get_neighbor(4, Location::LEFT), None);
    assert_eq!(m.get_neighbor(7, Location::RIGHT), None);
    assert_eq!(m.get_neighbor(2, Location::UP), Some(Neighbor::Stream(1)));
    assert_eq!(m.get_neighbor(1, Location::UP), None);
    assert_eq!(m.get_neighbor(9, Location::DOWN), Some(Neighbor::Stream(0)));
    assert_eq!(m.get_neighbor(8, Location::DOWN), None);
    assert_eq!(m.get_neighbor(5, Location::ANY), None);
}

#[test]
fn load_errors() {
    assert!(matches!(Machine::new(Puzzle { streams: vec![], layout: vec![NodeType::TILE_COMPUTE; 11] }), Err(LoadError::LayoutSize)));
    let mut m = machine(layout_with(&[(0, NodeType::TILE_COMPUTE), (1, NodeType::TILE_MEMORY)]), vec![]);
    assert_eq!(m.load_instructions(12, vec![Instruction::NOP]), Err(LoadError::NoSuchNode));
    assert_eq!(m.load_instructions(1, vec![Instruction::NOP]), Err(LoadError::NotComputing));
    assert_eq!(m.load_instructions(2, vec![Instruction::NOP]), Err(LoadError::NotComputing));
    assert_eq!(m.load_instructions(0, vec![Instruction::JMP(label(1))]), Err(LoadError::UnfitProgram));
    assert_eq!(m.load_instructions(0, vec![Instruction::MOV(Location::ACC, Location::CONSTANT(1))]), Err(LoadError::UnfitProgram));
    assert_eq!(m.load_instructions(0, vec![Instruction::JMP(label(0))]), Ok(()));
    assert_eq!(m.load_instructions(0, vec![Instruction::NOP]), Err(LoadError::AlreadyLoaded));
}

fn step_one(program: Vec<Instruction>, start: Registers, input: Option<i32>) -> Registers {
    let mut r = start;
    let len = program.len();
    program[start.pc].execute(&mut r, input, len);
    r
}

fn regs_of(acc: i32, bak: i32, pc: usize) -> Registers {
    Registers { acc, bak, pc, outbox: None, retiring: false }
}

#[test]
fn instruction_semantics() {
    let p = vec![Instruction::NOP, Instruction::SWP, Instruction::NEG];
    assert_eq!(step_one(p.clone(), regs_of(1, 2, 0), None), regs_of(1, 2, 1));
    assert_eq!(step_one(p.clone(), regs_of(1, 2, 1), None), regs_of(2, 1, 2));
    assert_eq!(step_one(p.clone(), regs_of(3, 2, 2), None), regs_of(-3, 2, 0));
    assert_eq!(step_one(vec![Instruction::NEG], regs_of(i32::MIN, 0, 0), None), regs_of(i32::MAX, 0, 0));
    assert_eq!(step_one(vec![Instruction::SAV], regs_of(6, 0, 0), None), regs_of(6, 6, 0));
    assert_eq!(step_one(vec![Instruction::ADD(Location::UP)], regs_of(6, 0, 0), Some(4)), regs_of(10, 0, 0));
    assert_eq!(step_one(vec![Instruction::ADD(Location::UP)], regs_of(6, 0, 0), None), regs_of(6, 0, 0));
    assert_eq!(step_one(vec![Instruction::SUB(Location::UP), Instruction::NOP], regs_of(6, 0, 0), Some(10)), regs_of(-4, 0, 1));
    assert_eq!(step_one(vec![Instruction::ADD(Location::UP)], regs_of(i32::MAX, 0, 0), Some(1)), regs_of(i32::MAX, 0, 0));
    assert_eq!(step_one(vec![Instruction::SUB(Location::UP)], regs_of(i32::MIN, 0, 0), Some(1)), regs_of(i32::MIN, 0, 0));
    let jumps = vec![
        Instruction::JEZ(label(3)), Instruction::JNZ(label(3)), Instruction::JGZ(label(3)), Instruction::JLZ(label(3)),
    ];
    assert_eq!(step_one(jumps.clone(), regs_of(0, 0, 0), None).pc, 3);
    assert_eq!(step_one(jumps.clone(), regs_of(1, 0, 0), None).pc, 1);
    assert_eq!(step_one(jumps.clone(), regs_of(1, 0, 1), None).pc, 3);
    assert_eq!(step_one(jumps.clone(), regs_of(0, 0, 1), None).pc, 2);
    assert_eq!(step_one(jumps.clone(), regs_of(1, 0, 2), None).pc, 3);
    assert_eq!(step_one(jumps.clone(), regs_of(-1, 0, 2), None).pc, 3);
    assert_eq!(step_one(jumps.clone(), regs_of(-1, 0, 3), None).pc, 3);
    assert_eq!(step_one(jumps.clone(), regs_of(1, 0, 3), None).pc, 0);
    assert_eq!(step_one(vec![Instruction::JMP(label(0)), Instruction::NOP], regs_of(0, 0, 1).clone(), None).pc, 0);
    let rel = vec![Instruction::NOP, Instruction::JRO(2), Instruction::NOP, Instruction::JRO(-5)];
    assert_eq!(step_one(rel.clone(), regs_of(0, 0, 1), None).pc, 3);
    assert_eq!(step_one(rel.clone(), regs_of(0, 0, 3), None).pc, 0);
    assert_eq!(step_one(vec![Instruction::JRO(7), Instruction::NOP], regs_of(0, 0, 0), None).pc, 1);
}

#[test]
fn mov_destinations() {
    let to_acc = vec![Instruction::MOV(Location::UP, Location::ACC), Instruction::NOP];
    assert_eq!(step_one(to_acc.clone(), regs_of(0, 0, 0), Some(8)), regs_of(8, 0, 1));
    assert_eq!(step_one(to_acc, regs_of(0, 0, 0), None), regs_of(0, 0, 0));
    let to_nil = vec![Instruction::MOV(Location::UP, Location::NIL), Instruction::NOP];
    assert_eq!(step_one(to_nil, regs_of(0, 0, 0), Some(8)), regs_of(0, 0, 1));
    let to_left = vec![Instruction::MOV(Location::ACC, Location::LEFT)];
    let r = step_one(to_left, regs_of(2, 0, 0), Some(2));
    assert_eq!(r.outbox, Some(Pending { value: 2, target: Location::LEFT, fresh: true }));
    assert!(r.retiring);
    assert_eq!(r.pc, 0);
}

#[test]
fn opposite_directions() {
    assert_eq!(Location::UP.opposite(), Location::DOWN);
    assert_eq!(Location::DOWN.opposite(), Location::UP);
    assert_eq!(Location::LEFT.opposite(), Location::RIGHT);
    assert_eq!(Location::RIGHT.opposite(), Location::LEFT);
    assert_eq!(Location::ANY.opposite(), Location::NIL);
    assert_eq!(Location::CONSTANT(3).opposite(), Location::NIL);
}

#[test]
fn parse_locations() {
    assert_eq!(Location::parse("LEFT").unwrap(), Location::LEFT);
    assert_eq!(Location::parse("RIGHT").unwrap(), Location::RIGHT);
    assert_eq!(Location::parse("UP").unwrap(), Location::UP);
    assert_eq!(Location::parse("DOWN").unwrap(), Location::DOWN);
    assert_eq!(Location::parse("ANY").unwrap(), Location::ANY);
    assert_eq!(Location::parse("ACC").unwrap(), Location::ACC);
    assert_eq!(Location::parse("NIL").unwrap(), Location::NIL);
    assert_eq!(Location::parse("42").unwrap(), Location::CONSTANT(42));
    assert_eq!(Location::parse("-17").unwrap(), Location::CONSTANT(-17));
    assert_eq!(Location::parse("+5").unwrap(), Location::CONSTANT(5));
    assert_eq!(Location::parse("007").unwrap(), Location::CONSTANT(7));
    assert_eq!(Location::parse("2147483647").unwrap(), Location::CONSTANT(i32::MAX));
    assert_eq!(Location::parse("-2147483648").unwrap(), Location::CONSTANT(i32::MIN));
    assert!(Location::parse("2147483648").is_err());
    assert!(Location::parse("99999999999999999999").is_err());
    assert!(Location::parse("").is_err());
    assert!(Location::parse("-").is_err());
    assert!(Location::parse("1a").is_err());
    assert!(Location::parse("up").is_err());
    assert_eq!(Location::parse("BAK").unwrap_err().0, "BAK");
}

#[test]
fn kind_codes() {
    assert_eq!(StreamType::from_code(1), Some(StreamType::STREAM_INPUT));
    assert_eq!(StreamType::from_code(2), Some(StreamType::STREAM_OUTPUT));
    assert_eq!(StreamType::from_code(3), Some(StreamType::STREAM_IMAGE));
    assert_eq!(StreamType::from_code(4), None);
    assert_eq!(NodeType::from_code(4), Some(NodeType::TILE_COMPUTE));
    assert_eq!(NodeType::from_code(5), Some(NodeType::TILE_MEMORY));
    assert_eq!(NodeType::from_code(6), Some(NodeType::TILE_DAMAGED));
    assert_eq!(NodeType::from_code(0), None);
}

#[test]
fn any_read_prefers_up_then_down() {
    let layout = layout_with(&[(1, NodeType::TILE_COMPUTE), (5, NodeType::TILE_COMPUTE), (9, NodeType::TILE_COMPUTE)]);
    let mut m = machine(layout, vec![]);
    m.load_instructions(1, vec![Instruction::MOV(Location::CONSTANT(11), Location::DOWN), Instruction::JRO(0)]).unwrap();
    m.load_instructions(9, vec![Instruction::MOV(Location::CONSTANT(22), Location::UP), Instruction::JRO(0)]).unwrap();
    m.load_instructions(5, vec![
        Instruction::MOV(Location::ANY, Location::ACC),
        Instruction::ADD(Location::ANY),
        Instruction::JRO(0),
    ]).unwrap();
    m.update();
    m.update();
    assert_eq!(regs(&m, 5).acc, 11);
    assert_eq!(regs(&m, 9).outbox.map(|p| p.value), Some(22));
    run(&mut m, 5);
    assert_eq!(regs(&m, 5).acc, 33);
    assert_eq!(regs(&m, 5).pc, 2);
}

#[test]
fn puzzle_codes() {
    assert_eq!(layout_from_codes(&vec![4, 5, 6]).unwrap(), vec![NodeType::TILE_COMPUTE, NodeType::TILE_MEMORY, NodeType::TILE_DAMAGED]);
    assert_eq!(layout_from_codes(&vec![4, 7]).unwrap_err(), LoadError::UnknownNodeType);
    let s = AnswerStream::from_code(2, "out".to_string(), 1, vec![3]).unwrap();
    assert_eq!((s.stream_type, s.offset, s.values.clone(), s.name.as_str()), (StreamType::STREAM_OUTPUT, 1, vec![3], "out"));
    assert_eq!(AnswerStream::from_code(0, "x".to_string(), 0, vec![]).err(), Some(LoadError::UnknownStreamType));
}

#[test]
fn any_write_is_not_handed_to_a_non_direction() {
    let mut c = Compute::new(0);
    c.try_set_instructions(vec![Instruction::MOV(Location::CONSTANT(5), Location::ANY)]).unwrap();
    c.update(Some(5));
    c.mature();
    assert_eq!(c.read_from(Location::ACC), None);
    assert_eq!(c.read_from(Location::NIL), None);
    assert_eq!(c.read_from(Location::ANY), None);
    assert_eq!(c.read_from(Location::LEFT), Some(5));
}

#[test]
fn blocked_node_clears_fresh_mark_on_its_turn() {
    let mut c = Compute::new(0);
    c.try_set_instructions(vec![Instruction::MOV(Location::CONSTANT(5), Location::UP)]).unwrap();
    c.update(Some(5));
    assert_eq!(c.regs.outbox, Some(Pending { value: 5, target: Location::UP, fresh: true }));
    c.update(None);
    assert_eq!(c.regs.outbox, Some(Pending { value: 5, target: Location::UP, fresh: false }));
    assert_eq!(c.regs.pc, 0);
}

#[test]
fn output_takes_a_write_in_the_same_tick() {
    let layout = layout_with(&[(8, NodeType::TILE_COMPUTE)]);
    let mut m = machine(layout, vec![output(0, vec![6, 6])]);
    m.load_instructions(8, vec![Instruction::MOV(Location::CONSTANT(6), Location::DOWN), Instruction::NOP]).unwrap();
    m.update();
    assert_eq!(m.puzzle.streams[0].answers, vec![6]);
    assert_eq!(regs(&m, 8).outbox, None);
    assert!(!regs(&m, 8).retiring);
    assert_eq!(regs(&m, 8).pc, 1);
    m.update();
    m.update();
    assert_eq!(m.puzzle.streams[0].answers, vec![6, 6]);
    assert!(!m.not_complete());
}

#[test]
fn storage_pulls_in_up_down_left_right_order() {
    let layout = layout_with(&[
        (1, NodeType::TILE_COMPUTE), (4, NodeType::TILE_COMPUTE), (5, NodeType::TILE_MEMORY),
        (6, NodeType::TILE_COMPUTE), (9, NodeType::TILE_COMPUTE),
    ]);
    let mut m = machine(layout, vec![]);
    m.load_instructions(1, vec![Instruction::MOV(Location::CONSTANT(1), Location::DOWN), Instruction::JRO(0)]).unwrap();
    m.load_instructions(9, vec![Instruction::MOV(Location::CONSTANT(2), Location::UP), Instruction::JRO(0)]).unwrap();
    m.load_instructions(4, vec![Instruction::MOV(Location::CONSTANT(3), Location::RIGHT), Instruction::JRO(0)]).unwrap();
    m.load_instructions(6, vec![Instruction::MOV(Location::CONSTANT(4), Location::LEFT), Instruction::JRO(0)]).unwrap();
    m.update();
    assert!(stack(&m, 5).is_empty());
    m.update();
    assert_eq!(stack(&m, 5), vec![4, 3, 2, 1]);
}
