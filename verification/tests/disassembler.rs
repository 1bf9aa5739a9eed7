use lox_front::bytecode::{Chunk, Constant, LineNo, Op};
use lox_front::bytecode_interpreter::{dis_chunk, dis_code};
use lox_front::text::{decimal_string, join_lines};

fn row(idx: usize, op: &str, line: usize) -> String {
    format!("{0: <04}   {1: <50} line {2: <50}", idx, op, line)
}

fn sample() -> Chunk {
    let mut chunk = Chunk::default();
    let hi = chunk.add_constant_string("hi");
    let num = chunk.add_constant_number("1.5".to_string(), |text: &String| text == "1.5");
    chunk.append_instruction(Op::Constant(hi), LineNo::new(1));
    chunk.append_instruction(Op::Constant(num), LineNo::new(1));
    chunk.append_instruction(Op::Add, LineNo::new(2));
    chunk.append_instruction(Op::Return, LineNo::new(123));
    chunk
}

#[test]
fn code_rows_in_order() {
    let rows = dis_code(&sample());
    let rows: Vec<String> = rows.into_iter().map(|r| r.unwrap()).collect();
    assert_eq!(
        rows,
        vec![
            row(0, "OP_CONSTANT \"hi\" (idx=0)", 1),
            row(1, "OP_CONSTANT 1.5 (idx=1)", 1),
            row(2, "OP_ADD", 2),
            row(3, "OP_RETURN", 123),
        ]
    );
    assert!(rows[0].starts_with("0000   OP_CONSTANT \"hi\" (idx=0)  "));
    assert_eq!(rows[0].len(), 4 + 3 + 50 + 6 + 50);
}

#[test]
fn every_mnemonic() {
    let ops = vec![
        (Op::Return, "OP_RETURN"),
        (Op::Nil, "OP_NIL"),
        (Op::True, "OP_TRUE"),
        (Op::False, "OP_FALSE"),
        (Op::Negate, "OP_NEGATE"),
        (Op::Add, "OP_ADD"),
        (Op::Subtract, "OP_SUBTRACT"),
        (Op::Multiply, "OP_MULTIPLY"),
        (Op::Divide, "OP_DIVIDE"),
        (Op::Not, "OP_NOT"),
        (Op::Equal, "OP_EQUAL"),
        (Op::Greater, "OP_GREATER"),
        (Op::Less, "OP_LESS"),
        (Op::Print, "OP_PRINT"),
        (Op::Pop, "OP_POP"),
    ];
    let mut chunk = Chunk::default();
    for (i, (op, _)) in ops.iter().enumerate() {
        chunk.append_instruction(op.clone(), LineNo::new(i + 1));
    }
    let rows = dis_code(&chunk);
    assert_eq!(rows.len(), ops.len());
    for (i, (_, name)) in ops.iter().enumerate() {
        assert_eq!(rows[i].as_ref().unwrap(), &row(i, name, i + 1));
    }
}

#[test]
fn whole_listing() {
    let text = dis_chunk(&sample(), "main").unwrap();
    let expected = vec![
        "============ main ============".to_string(),
        "------------ constants ------------".to_string(),
        format!("{:<4} {}", 0, "\"hi\""),
        format!("{:<4} {}", 1, "1.5"),
        "\n------------ code -----------------".to_string(),
        row(0, "OP_CONSTANT \"hi\" (idx=0)", 1),
        row(1, "OP_CONSTANT 1.5 (idx=1)", 1),
        row(2, "OP_ADD", 2),
        row(3, "OP_RETURN", 123),
    ]
    .join("\n");
    assert_eq!(text, expected);
}

#[test]
fn no_banner_for_the_empty_name() {
    let text = dis_chunk(&sample(), "").unwrap();
    assert!(text.starts_with("------------ constants ------------\n0    \"hi\"\n1    1.5\n\n"));
}

#[test]
fn empty_chunk() {
    let text = dis_chunk(&Chunk::default(), "").unwrap();
    assert_eq!(text, "------------ constants ------------\n\n------------ code -----------------");
    assert!(dis_code(&Chunk::default()).is_empty());
}

#[test]
fn one_row_for_each_entry() {
    let mut chunk = Chunk::default();
    for i in 0..12 {
        let idx = chunk.add_constant_string(&format!("s{}", i));
        chunk.append_instruction(Op::Constant(idx), LineNo::new(i));
        chunk.append_instruction(Op::Pop, LineNo::new(i));
    }
    let text = dis_chunk(&chunk, "rows").unwrap();
    let lines: Vec<&str> = text.split('\n').collect();
    // banner, header, 12 constants, empty line, header, 24 instructions
    assert_eq!(lines.len(), 1 + 1 + 12 + 2 + 24);
    for i in 0..12 {
        assert_eq!(lines[2 + i], format!("{:<4} \"s{}\"", i, i));
        assert_eq!(lines[16 + 2 * i], row(2 * i, &format!("OP_CONSTANT \"s{}\" (idx={})", i, i), i));
        assert_eq!(lines[17 + 2 * i], row(2 * i + 1, "OP_POP", i));
    }
    assert_eq!(dis_code(&chunk).len(), 24);
}

#[test]
fn constant_outside_the_pool() {
    let mut chunk = sample();
    chunk.append_instruction(Op::Constant(2), LineNo::new(9));
    chunk.append_instruction(Op::Pop, LineNo::new(10));
    chunk.append_instruction(Op::Constant(77), LineNo::new(11));

    let rows = dis_code(&chunk);
    assert_eq!(rows.len(), 7);
    assert!(rows[3].is_ok());
    let bad = rows[4].as_ref().unwrap_err();
    assert_eq!((bad.offset, bad.index, bad.line.value), (4, 2, 9));
    assert_eq!(rows[5].as_ref().unwrap(), &row(5, "OP_POP", 10));
    let bad = rows[6].as_ref().unwrap_err();
    assert_eq!((bad.offset, bad.index, bad.line.value), (6, 77, 11));

    let broken = dis_chunk(&chunk, "main").unwrap_err();
    assert_eq!(broken.errors.len(), 2);
    assert_eq!(broken.errors[0].offset, 4);
    assert_eq!(broken.errors[1].offset, 6);
    let good = dis_chunk(&sample(), "main").unwrap();
    let expected = vec![
        good,
        row(4, "Invalid index value! (idx=2)", 9),
        row(5, "OP_POP", 10),
        row(6, "Invalid index value! (idx=77)", 11),
    ]
    .join("\n");
    assert_eq!(broken.listing, expected);
    assert_eq!(broken.errors[0].row(), row(4, "Invalid index value! (idx=2)", 9));
}

#[test]
fn constant_in_an_empty_pool() {
    let mut chunk = Chunk::default();
    chunk.append_instruction(Op::Constant(0), LineNo::new(1));
    assert!(dis_code(&chunk)[0].is_err());
    assert!(dis_chunk(&chunk, "x").is_err());
}

#[test]
fn wide_rows_are_not_cut() {
    let mut chunk = Chunk::default();
    let long = "x".repeat(80);
    let idx = chunk.add_constant(Constant::String(long.clone()));
    for _ in 0..10001 {
        chunk.append_instruction(Op::Nil, LineNo::new(0));
    }
    chunk.append_instruction(Op::Constant(idx), LineNo::new(usize::MAX));
    let rows = dis_code(&chunk);
    assert_eq!(rows[9999].as_ref().unwrap(), &row(9999, "OP_NIL", 0));
    assert_eq!(rows[10000].as_ref().unwrap(), &row(10000, "OP_NIL", 0));
    assert_eq!(
        rows[10001].as_ref().unwrap(),
        &row(10001, &format!("OP_CONSTANT \"{}\" (idx=0)", long), usize::MAX)
    );
}

#[test]
fn padding_counts_characters() {
    let mut chunk = Chunk::default();
    let idx = chunk.add_constant_string("héllo → ok");
    chunk.append_instruction(Op::Constant(idx), LineNo::new(4));
    let rows = dis_code(&chunk);
    assert_eq!(rows[0].as_ref().unwrap(), &row(0, "OP_CONSTANT \"héllo → ok\" (idx=0)", 4));
}

#[test]
fn decimal_numerals() {
    for n in [0usize, 1, 9, 10, 11, 99, 100, 101, 12345, 1000000, usize::MAX - 1, usize::MAX] {
        assert_eq!(decimal_string(n), n.to_string());
    }
}

#[test]
fn joining_lines() {
    assert_eq!(join_lines(&vec![]), "");
    assert_eq!(join_lines(&vec!["a".to_string()]), "a");
    assert_eq!(join_lines(&vec!["a".to_string(), String::new(), "b".to_string()]), "a\n\nb");
}
