//! The disassembler: a chunk rendered as a listing for people to read.

use vstd::prelude::*;
use vstd::string::*;
use crate::bytecode::{constant_text, Chunk, ChunkView, ConstantView, LineNo, Op};
use crate::text::{
    decimal, decimal_string, join_lines, joined, pad_right, push_decimal, push_padded,
    push_zero_padded, text_views, zero_padded,
};

verus! {

/// An instruction whose constant operand lies outside the pool.
#[derive(Debug, Clone, Copy)]
pub struct BadConstant {
    /// Position of the instruction in the code.
    pub offset: usize,
    /// The operand: an index that the pool does not have.
    pub index: usize,
    /// Source line of the instruction.
    pub line: LineNo,
}

/// A listing of a chunk in which some instruction could not be resolved.
#[derive(Debug, Clone)]
pub struct BrokenListing {
    /// The whole listing; each unresolved instruction has a row that says so.
    pub listing: String,
    /// The unresolved instructions, in code order.
    pub errors: Vec<BadConstant>,
}

/// The name of an instruction in a listing.
pub open spec fn mnemonic(op: Op) -> Seq<char> {
    match op {
        Op::Return => "OP_RETURN"@,
        Op::Constant(_) => "OP_CONSTANT"@,
        Op::Nil => "OP_NIL"@,
        Op::True => "OP_TRUE"@,
        Op::False => "OP_FALSE"@,
        Op::Negate => "OP_NEGATE"@,
        Op::Add => "OP_ADD"@,
        Op::Subtract => "OP_SUBTRACT"@,
        Op::Multiply => "OP_MULTIPLY"@,
        Op::Divide => "OP_DIVIDE"@,
        Op::Not => "OP_NOT"@,
        Op::Equal => "OP_EQUAL"@,
        Op::Greater => "OP_GREATER"@,
        Op::Less => "OP_LESS"@,
        Op::Print => "OP_PRINT"@,
        Op::Pop => "OP_POP"@,
    }
}

/// A constant instruction with the constant that it loads.
pub open spec fn constant_instruction(constant: ConstantView, index: nat) -> Seq<char> {
    "OP_CONSTANT "@ + constant_text(constant) + " (idx="@ + decimal(index) + ")"@
}

/// What a listing says of a constant instruction whose operand the pool
/// does not have.
pub open spec fn invalid_instruction(index: nat) -> Seq<char> {
    "Invalid index value! (idx="@ + decimal(index) + ")"@
}

/// A row of the code section: the position of the instruction in four
/// digits, the instruction in a field of 50, and the source line in a field
/// of 50.
pub open spec fn code_row(offset: nat, instruction: Seq<char>, line: nat) -> Seq<char> {
    zero_padded(offset, 4) + "   "@ + pad_right(instruction, 50) + " line "@ + pad_right(
        decimal(line),
        50,
    )
}

/// A row of the constants section: the index in a field of four, and the
/// constant.
pub open spec fn constant_row(index: nat, constant: ConstantView) -> Seq<char> {
    pad_right(decimal(index), 4) + " "@ + constant_text(constant)
}

/// The row of the instruction at `offset`, or the error where its operand
/// lies outside the pool.
pub open spec fn code_entry(chunk: ChunkView, offset: int) -> Result<Seq<char>, BadConstant> {
    let (op, line) = chunk.code[offset];
    match op {
        Op::Constant(index) => if index < chunk.constants.len() {
            Ok(
                code_row(
                    offset as nat,
                    constant_instruction(chunk.constants[index as int], index as nat),
                    line.value as nat,
                ),
            )
        } else {
            Err(BadConstant { offset: offset as usize, index, line })
        },
        _ => Ok(code_row(offset as nat, mnemonic(op), line.value as nat)),
    }
}

/// The row that stands in a listing for an unresolved instruction.
pub open spec fn error_row(error: BadConstant) -> Seq<char> {
    code_row(error.offset as nat, invalid_instruction(error.index as nat), error.line.value as nat)
}

/// The row that a listing shows for the instruction at `offset`.
pub open spec fn shown_row(chunk: ChunkView, offset: int) -> Seq<char> {
    match code_entry(chunk, offset) {
        Ok(row) => row,
        Err(error) => error_row(error),
    }
}

/// The rows of the code section: one for each instruction, in code order.
pub open spec fn code_rows(chunk: ChunkView) -> Seq<Seq<char>> {
    Seq::new(chunk.code.len(), |i: int| shown_row(chunk, i))
}

/// The rows of the constants section: one for each entry, in pool order.
pub open spec fn constant_rows(pool: Seq<ConstantView>) -> Seq<Seq<char>> {
    Seq::new(pool.len(), |i: int| constant_row(i as nat, pool[i]))
}

/// The unresolved instructions among the first `upto`, in code order.
pub open spec fn errors_upto(chunk: ChunkView, upto: int) -> Seq<BadConstant>
    decreases upto,
{
    if upto <= 0 {
        Seq::empty()
    } else {
        match code_entry(chunk, upto - 1) {
            Ok(_) => errors_upto(chunk, upto - 1),
            Err(error) => errors_upto(chunk, upto - 1).push(error),
        }
    }
}

/// The line that names the chunk; there is none for the empty name.
pub open spec fn banner(name: Seq<char>) -> Seq<Seq<char>> {
    if name.len() == 0 {
        Seq::empty()
    } else {
        seq!["============ "@ + name + " ============"@]
    }
}

/// The header of the constants section.
pub open spec fn constants_header() -> Seq<char> {
    "------------ constants ------------"@
}

/// The header of the code section; it starts with a newline, so that an
/// empty line parts the sections.
pub open spec fn code_header() -> Seq<char> {
    "\n------------ code -----------------"@
}

/// The rows of a listing: the banner, the constants section and the code
/// section.
pub open spec fn listing_rows(chunk: ChunkView, name: Seq<char>) -> Seq<Seq<char>> {
    banner(name) + seq![constants_header()] + constant_rows(chunk.constants) + seq![code_header()]
        + code_rows(chunk)
}

/// The listing of a chunk.
pub open spec fn listing(chunk: ChunkView, name: Seq<char>) -> Seq<char> {
    joined(listing_rows(chunk, name))
}

/// A listing has one row for each entry of the pool, in pool order, and one
/// row for each instruction, in code order.
pub proof fn lemma_listing_rows(chunk: ChunkView, name: Seq<char>)
    ensures
        ({
            let rows = listing_rows(chunk, name);
            let first_constant: int = banner(name).len() as int + 1;
            let first_instruction: int = first_constant + chunk.constants.len() as int + 1;
            &&& rows.len() == first_instruction + chunk.code.len()
            &&& forall|i: int|
                0 <= i < chunk.constants.len() ==> #[trigger] rows[first_constant + i]
                    == constant_row(i as nat, chunk.constants[i])
            &&& forall|i: int|
                0 <= i < chunk.code.len() ==> #[trigger] rows[first_instruction + i] == shown_row(
                    chunk,
                    i,
                )
        }),
{
}

/// The view of one result of [`dis_code`].
pub open spec fn entry_view(entry: Result<String, BadConstant>) -> Result<Seq<char>, BadConstant> {
    match entry {
        Ok(row) => Ok(row@),
        Err(error) => Err(error),
    }
}

/// A chunk has an unresolved instruction exactly if [`errors_upto`] lists
/// one.
pub proof fn lemma_errors_exist(chunk: ChunkView, upto: int)
    requires
        0 <= upto <= chunk.code.len(),
    ensures
        errors_upto(chunk, upto).len() > 0 <==> exists|i: int|
            0 <= i < upto && #[trigger] code_entry(chunk, i) is Err,
        errors_upto(chunk, upto).len() <= upto,
    decreases upto,
{
    if upto > 0 {
        lemma_errors_exist(chunk, upto - 1);
        if code_entry(chunk, upto - 1) is Err {
        } else {
            if exists|i: int| 0 <= i < upto && #[trigger] code_entry(chunk, i) is Err {
                let i = choose|i: int| 0 <= i < upto && #[trigger] code_entry(chunk, i) is Err;
                assert(i < upto - 1);
            }
        }
    }
}

/// Builds a row of the code section.
fn format_code_row(offset: usize, instruction: &str, line: usize) -> (row: String)
    ensures
        row@ == code_row(offset as nat, instruction@, line as nat),
{
    let mut row = String::new();
    push_zero_padded(&mut row, offset, 4);
    row.append("   ");
    push_padded(&mut row, instruction, 50);
    row.append(" line ");
    let numeral = decimal_string(line);
    push_padded(&mut row, numeral.as_str(), 50);
    row
}

impl BadConstant {
    /// The row that stands in a listing for this instruction.
    pub fn row(&self) -> (row: String)
        ensures
            row@ == error_row(*self),
    {
        let mut instruction = "Invalid index value! (idx=".to_owned();
        push_decimal(&mut instruction, self.index);
        instruction.append(")");
        format_code_row(self.offset, instruction.as_str(), self.line.value)
    }
}

/// Renders each instruction of `chunk` by itself: its row, or the error
/// where its constant operand lies outside the pool. The results stand in
/// code order, one for each instruction.
pub fn dis_code(chunk: &Chunk) -> (lines: Vec<Result<String, BadConstant>>)
    ensures
        lines.len() == chunk.code.len(),
        forall|i: int|
            0 <= i < lines.len() ==> entry_view(#[trigger] lines[i]) == code_entry(chunk@, i),
{
    let mut lines: Vec<Result<String, BadConstant>> = Vec::new();
    let mut idx: usize = 0;
    while idx < chunk.code.len()
        invariant
            idx <= chunk.code.len(),
            lines.len() == idx,
            forall|i: int|
                0 <= i < idx ==> entry_view(#[trigger] lines[i]) == code_entry(chunk@, i),
        decreases chunk.code.len() - idx,
    {
        let lineno = chunk.code[idx].1;
        let formatted_op: Result<String, BadConstant> = match &chunk.code[idx].0 {
            Op::Return => Ok("OP_RETURN".to_owned()),
            Op::Constant(constant_idx) => {
                if *constant_idx < chunk.constants.len() {
                    assert(chunk@.constants[*constant_idx as int]
                        == chunk.constants[*constant_idx as int]@);
                    let mut text = "OP_CONSTANT ".to_owned();
                    chunk.constants[*constant_idx].push_to(&mut text);
                    text.append(" (idx=");
                    push_decimal(&mut text, *constant_idx);
                    text.append(")");
                    Ok(text)
                } else {
                    Err(BadConstant { offset: idx, index: *constant_idx, line: lineno })
                }
            },
            Op::Nil => Ok("OP_NIL".to_owned()),
            Op::True => Ok("OP_TRUE".to_owned()),
            Op::False => Ok("OP_FALSE".to_owned()),
            Op::Negate => Ok("OP_NEGATE".to_owned()),
            Op::Add => Ok("OP_ADD".to_owned()),
            Op::Subtract => Ok("OP_SUBTRACT".to_owned()),
            Op::Multiply => Ok("OP_MULTIPLY".to_owned()),
            Op::Equal => Ok("OP_EQUAL".to_owned()),
            Op::Greater => Ok("OP_GREATER".to_owned()),
            Op::Less => Ok("OP_LESS".to_owned()),
            Op::Divide => Ok("OP_DIVIDE".to_owned()),
            Op::Pop => Ok("OP_POP".to_owned()),
            Op::Print => Ok("OP_PRINT".to_owned()),
            Op::Not => Ok("OP_NOT".to_owned()),
        };
        let entry = match formatted_op {
            Ok(text) => Ok(format_code_row(idx, text.as_str(), lineno.value)),
            Err(error) => Err(error),
        };
        assert(entry_view(entry) == code_entry(chunk@, idx as int));
        lines.push(entry);
        idx = idx + 1;
    }
    lines
}

/// Disassembles the whole chunk: a banner with `name` unless it is empty,
/// the constants, and the code.
///
/// The listing is returned as `Ok` where every constant operand lies in the
/// pool. Where one does not, the listing is still complete: such an
/// instruction has a row that says so, and the result is `Err` with the
/// listing and these instructions.
pub fn dis_chunk(chunk: &Chunk, name: &str) -> (result: Result<String, BrokenListing>)
    ensures
        result is Err <==> exists|i: int|
            0 <= i < chunk@.code.len() && #[trigger] code_entry(chunk@, i) is Err,
        match result {
            Ok(text) => text@ == listing(chunk@, name@),
            Err(broken) => {
                &&& broken.listing@ == listing(chunk@, name@)
                &&& broken.errors@ == errors_upto(chunk@, chunk@.code.len() as int)
            },
        },
{
    let mut lines: Vec<String> = Vec::new();
    if !name.is_empty() {
        let mut line = "============ ".to_owned();
        line.append(name);
        line.append(" ============");
        lines.push(line);
    }
    lines.push("------------ constants ------------".to_owned());
    let ghost head = banner(name@) + seq![constants_header()];
    assert(text_views(lines@) == head);
    let mut idx: usize = 0;
    while idx < chunk.constants.len()
        invariant
            idx <= chunk.constants.len(),
            text_views(lines@) == head + constant_rows(chunk@.constants).take(idx as int),
        decreases chunk.constants.len() - idx,
    {
        assert(chunk@.constants[idx as int] == chunk.constants[idx as int]@);
        let numeral = decimal_string(idx);
        let mut line = String::new();
        push_padded(&mut line, numeral.as_str(), 4);
        line.append(" ");
        chunk.constants[idx].push_to(&mut line);
        let ghost before = lines@;
        let ghost rows = constant_rows(chunk@.constants);
        assert(line@ == rows[idx as int]);
        lines.push(line);
        proof {
            assert(text_views(lines@) == text_views(before).push(line@));
            assert(rows.take(idx + 1) == rows.take(idx as int).push(rows[idx as int]));
        }
        idx = idx + 1;
    }
    lines.push("\n------------ code -----------------".to_owned());
    let ghost top = head + constant_rows(chunk@.constants) + seq![code_header()];
    assert(text_views(lines@) == top) by {
        assert(constant_rows(chunk@.constants).take(chunk.constants.len() as int)
            == constant_rows(chunk@.constants));
    }
    let entries = dis_code(chunk);
    let mut errors: Vec<BadConstant> = Vec::new();
    let mut at: usize = 0;
    while at < entries.len()
        invariant
            at <= entries.len(),
            entries.len() == chunk@.code.len(),
            forall|i: int|
                0 <= i < entries.len() ==> entry_view(#[trigger] entries[i]) == code_entry(
                    chunk@,
                    i,
                ),
            text_views(lines@) == top + code_rows(chunk@).take(at as int),
            errors@ == errors_upto(chunk@, at as int),
        decreases entries.len() - at,
    {
        assert(entry_view(entries[at as int]) == code_entry(chunk@, at as int));
        let ghost before = lines@;
        let ghost rows = code_rows(chunk@);
        let line = match &entries[at] {
            Ok(row) => row.clone(),
            Err(error) => {
                errors.push(*error);
                error.row()
            },
        };
        assert(line@ == rows[at as int]);
        lines.push(line);
        proof {
            assert(text_views(lines@) == text_views(before).push(line@));
            assert(rows.take(at + 1) == rows.take(at as int).push(rows[at as int]));
        }
        at = at + 1;
    }
    proof {
        assert(code_rows(chunk@).take(entries.len() as int) == code_rows(chunk@));
        assert(text_views(lines@) == listing_rows(chunk@, name@));
        lemma_errors_exist(chunk@, chunk@.code.len() as int);
    }
    let text = join_lines(&lines);
    if errors.len() == 0 {
        Ok(text)
    } else {
        Err(BrokenListing { listing: text, errors })
    }
}

} // verus!
