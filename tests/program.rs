use tis100::instruction::{Instruction, Label};
use tis100::node::Location;
use tis100::program::{collect_labels, parse_program};

fn lines(text: &[&[&'static str]]) -> Vec<Vec<&'static str>> {
    text.iter().map(|l| l.to_vec()).collect()
}

fn label(name: &str, offset: usize) -> Label {
    Label { name: name.to_string(), offset }
}

fn describe(i: &Instruction) -> String {
    format!("{:?}", i)
}

#[test]
fn parse_each_opcode() {
    let labels = vec![label("TOP", 0), label("END", 3)];
    let ok = |w: Vec<&str>| describe(&Instruction::parse(&w, &labels).unwrap());
    assert_eq!(ok(vec!["NOP"]), describe(&Instruction::NOP));
    assert_eq!(ok(vec!["MOV", "UP", "ACC"]), describe(&Instruction::MOV(Location::UP, Location::ACC)));
    assert_eq!(ok(vec!["MOV", "-3", "ANY"]), describe(&Instruction::MOV(Location::CONSTANT(-3), Location::ANY)));
    assert_eq!(ok(vec!["SWP"]), describe(&Instruction::SWP));
    assert_eq!(ok(vec!["SAV"]), describe(&Instruction::SAV));
    assert_eq!(ok(vec!["ADD", "LEFT"]), describe(&Instruction::ADD(Location::LEFT)));
    assert_eq!(ok(vec!["SUB", "NIL"]), describe(&Instruction::SUB(Location::NIL)));
    assert_eq!(ok(vec!["NEG"]), describe(&Instruction::NEG));
    assert_eq!(ok(vec!["JMP", "END"]), describe(&Instruction::JMP(label("END", 3))));
    assert_eq!(ok(vec!["JEZ", "TOP"]), describe(&Instruction::JEZ(label("TOP", 0))));
    assert_eq!(ok(vec!["JNZ", "TOP"]), describe(&Instruction::JNZ(label("TOP", 0))));
    assert_eq!(ok(vec!["JGZ", "END"]), describe(&Instruction::JGZ(label("END", 3))));
    assert_eq!(ok(vec!["JLZ", "END"]), describe(&Instruction::JLZ(label("END", 3))));
    assert_eq!(ok(vec!["JRO", "-1"]), describe(&Instruction::JRO(-1)));
}

#[test]
fn parse_refusals() {
    let labels = vec![label("TOP", 0)];
    let err = |w: Vec<&str>| Instruction::parse(&w, &labels).unwrap_err().0;
    assert_eq!(err(vec![]), "");
    assert_eq!(err(vec!["HCF"]), "HCF");
    assert_eq!(err(vec!["NOP", "UP"]), "NOP");
    assert_eq!(err(vec!["MOV", "UP"]), "MOV");
    assert_eq!(err(vec!["MOV", "UP", "BAK"]), "BAK");
    assert_eq!(err(vec!["ADD"]), "ADD");
    assert_eq!(err(vec!["JMP", "NOWHERE"]), "NOWHERE");
    assert_eq!(err(vec!["JRO", "UP"]), "JRO");
    assert_eq!(err(vec!["mov", "UP", "ACC"]), "mov");
}

#[test]
fn labels_mark_the_next_instruction() {
    let prog = lines(&[
        &["START:"],
        &["MOV", "UP", "ACC"],
        &["LOOP:", "SUB", "1"],
        &["JGZ", "LOOP"],
        &["END:"],
        &["JMP", "START"],
    ]);
    let labels = collect_labels(&prog);
    assert_eq!(labels.len(), 3);
    assert_eq!((labels[0].name.as_str(), labels[0].offset), ("START", 0));
    assert_eq!((labels[1].name.as_str(), labels[1].offset), ("LOOP", 1));
    assert_eq!((labels[2].name.as_str(), labels[2].offset), ("END", 3));
    let p = parse_program(&prog, &labels).unwrap();
    let got: Vec<String> = p.iter().map(describe).collect();
    let want: Vec<String> = vec![
        Instruction::MOV(Location::UP, Location::ACC),
        Instruction::SUB(Location::CONSTANT(1)),
        Instruction::JGZ(label("LOOP", 1)),
        Instruction::JMP(label("START", 0)),
    ].iter().map(describe).collect();
    assert_eq!(got, want);
}

#[test]
fn program_with_a_bad_line_is_refused() {
    let prog = lines(&[&["NOP"], &["JMP", "MISSING"]]);
    let labels = collect_labels(&prog);
    assert!(labels.is_empty());
    assert_eq!(parse_program(&prog, &labels).unwrap_err().0, "MISSING");
}

#[test]
fn lone_colon_is_no_label() {
    let prog = lines(&[&[":"], &["NOP"]]);
    assert!(collect_labels(&prog).is_empty());
    assert!(parse_program(&prog, &vec![]).is_err());
}

#[test]
fn trailing_label_marks_the_first_instruction() {
    let prog = lines(&[&["TOP:", "NOP"], &["JMP", "END"], &["END:"]]);
    let labels = collect_labels(&prog);
    assert_eq!((labels[1].name.as_str(), labels[1].offset), ("END", 0));
    let p = parse_program(&prog, &labels).unwrap();
    assert_eq!(describe(&p[1]), describe(&Instruction::JMP(label("END", 0))));
    let layout = vec![tis100::puzzle::NodeType::TILE_COMPUTE; 12];
    let mut m = tis100::machine::Machine::new(tis100::puzzle::Puzzle { streams: vec![], layout }).unwrap();
    assert_eq!(m.load_instructions(0, p), Ok(()));
}
