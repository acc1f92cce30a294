use vstd::prelude::*;
use vstd::string::StringSliceAdditionalSpecFns;
use vstd::utf8::is_char_boundary;
use vstd::utf8::encode_utf8;
use crate::instruction::{Instruction, Label, ParseError, parsed_as};

verus! {

/// ASCII `:`.
pub const COLON: u8 = 58;

/// The word defines a label: it ends in a colon, which is not its only
/// character.
pub open spec fn label_word(w: Seq<u8>) -> bool {
    w.len() > 1 && w.last() == COLON && is_char_boundary(w, w.len() - 1)
}

/// The line starts with a label definition.
pub open spec fn has_label(line: Seq<&str>) -> bool {
    line.len() > 0 && label_word(line[0].spec_bytes())
}

/// The words of the line's instruction: all of them after a label
/// definition.
pub open spec fn code_of(line: Seq<&str>) -> Seq<&str> {
    if has_label(line) { line.drop_first() } else { line }
}

/// Number of instructions in `lines`: one per line with words left once a
/// label definition is set aside.
pub open spec fn code_count(lines: Seq<Seq<&str>>) -> int
    decreases lines.len(),
{
    if lines.len() == 0 {
        0
    } else {
        code_count(lines.drop_last()) + if code_of(lines.last()).len() > 0 { 1int } else { 0int }
    }
}

/// The labels that `lines` define, in order: each name (without its colon)
/// with the index of the first instruction from its line on.
pub open spec fn label_defs(lines: Seq<Seq<&str>>) -> Seq<(Seq<u8>, int)>
    decreases lines.len(),
{
    if lines.len() == 0 {
        Seq::empty()
    } else {
        let t = label_defs(lines.drop_last());
        let l = lines.last();
        if has_label(l) {
            let w = l[0].spec_bytes();
            t.push((w.subrange(0, w.len() - 1), code_count(lines.drop_last())))
        } else {
            t
        }
    }
}

pub open spec fn lines_view(lines: Seq<Vec<&str>>) -> Seq<Seq<&str>> {
    lines.map(|i: int, l: Vec<&str>| l@)
}

proof fn lemma_prefix_step(lines: Seq<Seq<&str>>, k: int)
    requires
        0 <= k < lines.len(),
    ensures
        lines.subrange(0, k + 1).drop_last() == lines.subrange(0, k),
        lines.subrange(0, k + 1).last() == lines[k],
{
    assert(lines.subrange(0, k + 1).drop_last() =~= lines.subrange(0, k));
}

proof fn lemma_code_count_bound(lines: Seq<Seq<&str>>)
    ensures
        0 <= code_count(lines) <= lines.len(),
    decreases lines.len(),
{
    if lines.len() > 0 {
        lemma_code_count_bound(lines.drop_last());
    }
}

proof fn lemma_code_count_mono(lines: Seq<Seq<&str>>, j: int, k: int)
    requires
        0 <= j <= k <= lines.len(),
    ensures
        code_count(lines.subrange(0, j)) <= code_count(lines.subrange(0, k)),
    decreases k - j,
{
    if j < k {
        lemma_prefix_step(lines, k - 1);
        lemma_code_count_mono(lines, j, k - 1);
    }
}

/// Whether the word defines a label.
fn is_label_word(w: &str) -> (r: bool)
    ensures
        r == label_word(w.spec_bytes()),
{
    let b = w.as_bytes();
    b.len() > 1 && b[b.len() - 1] == COLON && w.is_char_boundary(b.len() - 1)
}

/// Collects the labels that a program's lines define. Each line is given as
/// its words; a first word that ends in a colon defines a label named by the
/// rest of that word, marking the next instruction. A label after the last
/// instruction marks the first one, where the program counter wraps to.
pub fn collect_labels(lines: &Vec<Vec<&str>>) -> (r: Vec<Label>)
    ensures
        r@.len() == label_defs(lines_view(lines@)).len(),
        forall|j: int| 0 <= j < r@.len() ==> {
            &&& encode_utf8((#[trigger] r@[j]).name@) == label_defs(lines_view(lines@))[j].0
            &&& r@[j].offset == (if label_defs(lines_view(lines@))[j].1 == code_count(lines_view(lines@)) {
                0
            } else {
                label_defs(lines_view(lines@))[j].1
            })
        },
{
    let ghost all = lines_view(lines@);
    let mut r: Vec<Label> = Vec::new();
    let mut count: usize = 0;
    let mut k: usize = 0;
    while k < lines.len()
        invariant
            all == lines_view(lines@),
            k <= lines@.len(),
            count == code_count(all.subrange(0, k as int)),
            r@.len() == label_defs(all.subrange(0, k as int)).len(),
            forall|j: int| 0 <= j < r@.len() ==> {
                &&& encode_utf8((#[trigger] r@[j]).name@) == label_defs(all.subrange(0, k as int))[j].0
                &&& r@[j].offset == label_defs(all.subrange(0, k as int))[j].1
            },
        decreases lines@.len() - k,
    {
        proof {
            lemma_prefix_step(all, k as int);
            lemma_code_count_bound(all.subrange(0, k as int));
        }
        let line = &lines[k];
        assert(line@ == all[k as int]);
        let labelled = line.len() > 0 && is_label_word(line[0]);
        if labelled {
            let w = line[0];
            let (name, _) = w.split_at(w.as_bytes().len() - 1);
            r.push(Label { name: name.to_owned(), offset: count });
        }
        if line.len() > (if labelled { 1usize } else { 0usize }) {
            count = count + 1;
        }
        k += 1;
    }
    assert(all.subrange(0, lines@.len() as int) =~= all);
    let mut out: Vec<Label> = Vec::new();
    let mut j: usize = 0;
    while j < r.len()
        invariant
            all == lines_view(lines@),
            count == code_count(all),
            r@.len() == label_defs(all).len(),
            j <= r@.len(),
            out@.len() == j,
            forall|q: int| 0 <= q < r@.len() ==> {
                &&& encode_utf8((#[trigger] r@[q]).name@) == label_defs(all)[q].0
                &&& r@[q].offset == label_defs(all)[q].1
            },
            forall|q: int| 0 <= q < j ==> {
                &&& encode_utf8((#[trigger] out@[q]).name@) == label_defs(all)[q].0
                &&& out@[q].offset == (if label_defs(all)[q].1 == code_count(all) { 0 } else { label_defs(all)[q].1 })
            },
        decreases r@.len() - j,
    {
        let offset: usize = if r[j].offset == count { 0 } else { r[j].offset };
        out.push(Label { name: r[j].name.clone(), offset });
        j += 1;
    }
    out
}

/// `p` holds, in order, the instructions of the first `k` lines, each
/// read as `parsed_as` describes.
pub open spec fn program_prefix(all: Seq<Seq<&str>>, labels: Seq<Label>, p: Seq<Instruction>, k: int) -> bool {
    &&& p.len() == code_count(all.subrange(0, k))
    &&& forall|j: int| 0 <= j < k && code_of(#[trigger] all[j]).len() > 0
        ==> parsed_as(code_of(all[j]), labels, p[code_count(all.subrange(0, j))])
}

proof fn lemma_index_below(all: Seq<Seq<&str>>, j: int, k: int)
    requires
        0 <= j < k <= all.len(),
        code_of(all[j]).len() > 0,
    ensures
        code_count(all.subrange(0, j)) < code_count(all.subrange(0, k)),
{
    lemma_prefix_step(all, j);
    lemma_code_count_mono(all, j + 1, k);
}

proof fn lemma_extend(all: Seq<Seq<&str>>, labels: Seq<Label>, before: Seq<Instruction>, after: Seq<Instruction>, k: int)
    requires
        0 <= k < all.len(),
        program_prefix(all, labels, before, k),
        code_of(all[k]).len() > 0 ==> after.len() == before.len() + 1
            && (forall|i: int| 0 <= i < before.len() ==> after[i] == before[i])
            && parsed_as(code_of(all[k]), labels, after[before.len() as int]),
        code_of(all[k]).len() == 0 ==> after == before,
    ensures
        program_prefix(all, labels, after, k + 1),
{
    lemma_prefix_step(all, k);
    assert(after.len() == code_count(all.subrange(0, k + 1)));
    assert forall|j: int| 0 <= j < k + 1 && code_of(#[trigger] all[j]).len() > 0
        implies parsed_as(code_of(all[j]), labels, after[code_count(all.subrange(0, j))]) by {
        let idx = code_count(all.subrange(0, j));
        lemma_code_count_bound(all.subrange(0, j));
        if j < k {
            lemma_index_below(all, j, k);
            assert(before.len() == code_count(all.subrange(0, k)));
            assert(0 <= idx < before.len());
            if code_of(all[k]).len() > 0 {
                assert(after[idx] == before[idx]);
            }
        } else {
            assert(idx == before.len());
        }
    }
}

/// The words of a line's instruction, a label definition set aside.
fn code_words<'a>(line: &Vec<&'a str>) -> (r: Vec<&'a str>)
    ensures
        r@ == code_of(line@),
{
    let labelled = line.len() > 0 && is_label_word(line[0]);
    let start: usize = if labelled { 1 } else { 0 };
    let mut code: Vec<&str> = Vec::new();
    let mut i: usize = start;
    while i < line.len()
        invariant
            start <= i <= line@.len(),
            code@ == line@.subrange(start as int, i as int),
        decreases line@.len() - i,
    {
        code.push(line[i]);
        i += 1;
    }
    assert(code@ =~= code_of(line@));
    code
}

/// Reads a program: one instruction for each line with words left once a
/// label definition is set aside, with jumps resolved through `labels`.
/// Refused, with the first bad line's complaint, when a line does not read
/// as an instruction.
#[verifier::rlimit(50)]
pub fn parse_program(lines: &Vec<Vec<&str>>, labels: &Vec<Label>) -> (r: Result<Vec<Instruction>, ParseError>)
    ensures
        r matches Ok(p) ==> {
            &&& p@.len() == code_count(lines_view(lines@))
            &&& forall|j: int| 0 <= j < lines@.len() && code_of(#[trigger] lines_view(lines@)[j]).len() > 0
                ==> parsed_as(code_of(lines_view(lines@)[j]), labels@,
                    p@[code_count(lines_view(lines@).subrange(0, j))])
        },
        r is Err ==> exists|j: int| 0 <= j < lines@.len() && code_of(#[trigger] lines_view(lines@)[j]).len() > 0
            && forall|i: Instruction| !parsed_as(code_of(lines_view(lines@)[j]), labels@, i),
{
    let ghost all = lines_view(lines@);
    let mut p: Vec<Instruction> = Vec::new();
    let mut k: usize = 0;
    while k < lines.len()
        invariant
            all == lines_view(lines@),
            k <= lines@.len(),
            program_prefix(all, labels@, p@, k as int),
        decreases lines@.len() - k,
    {
        let line = &lines[k];
        assert(line@ == all[k as int]);
        let code = code_words(line);
        let ghost before = p@;
        if code.len() > 0 {
            match Instruction::parse(&code, labels) {
                Ok(ins) => {
                    p.push(ins);
                    proof {
                        lemma_extend(all, labels@, before, p@, k as int);
                    }
                },
                Err(e) => {
                    assert(code_of(all[k as int]).len() > 0);
                    return Err(e);
                },
            }
        } else {
            proof {
                lemma_extend(all, labels@, before, p@, k as int);
            }
        }
        k += 1;
    }
    assert(all.subrange(0, lines@.len() as int) =~= all);
    Ok(p)
}

} // verus!
