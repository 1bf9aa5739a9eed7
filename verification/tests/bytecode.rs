use lox_front::bytecode::{Chunk, Constant, Function, LineNo, Op};

fn intern_number(chunk: &mut Chunk, num: f64) -> usize {
    chunk.add_constant_number(format!("{}", num), |text: &String| {
        (num - text.parse::<f64>().unwrap()).abs() < f64::EPSILON
    })
}

fn number_at(chunk: &Chunk, idx: usize) -> f64 {
    match &chunk.constants[idx] {
        Constant::Number(text) => text.parse::<f64>().unwrap(),
        other => panic!("not a number: {:?}", other),
    }
}

#[test]
fn line_number_holds_its_value() {
    assert_eq!(LineNo::new(7).value, 7);
    assert_eq!(LineNo::default().value, 0);
}

#[test]
fn same_string_same_index() {
    let mut chunk = Chunk::default();
    let first = chunk.add_constant_string("a");
    let second = chunk.add_constant_string("a");
    assert_eq!(first, 0);
    assert_eq!(second, 0);
    assert_eq!(chunk.constants.len(), 1);
}

#[test]
fn different_strings_different_indices() {
    let mut chunk = Chunk::default();
    assert_eq!(chunk.add_constant_string("a"), 0);
    assert_eq!(chunk.add_constant_string("b"), 1);
    assert_eq!(chunk.add_constant_string("a"), 0);
    assert_eq!(chunk.add_constant_string(""), 2);
    assert_eq!(chunk.add_constant_string("A"), 3);
    assert_eq!(chunk.add_constant_string("b"), 1);
    assert_eq!(chunk.constants.len(), 4);
}

#[test]
fn close_numbers_share_an_index() {
    let mut chunk = Chunk::default();
    let first = intern_number(&mut chunk, 1.0);
    let second = intern_number(&mut chunk, 1.0 + 1e-16);
    assert_eq!(first, second);
    assert_eq!(chunk.constants.len(), 1);
}

#[test]
fn distinct_numbers_have_distinct_indices() {
    let mut chunk = Chunk::default();
    let one = intern_number(&mut chunk, 1.0);
    let two = intern_number(&mut chunk, 2.0);
    assert_eq!(one, 0);
    assert_eq!(two, 1);
    assert_eq!(intern_number(&mut chunk, 2.0), 1);
    assert_eq!(intern_number(&mut chunk, 1.0), 0);
    assert_eq!(number_at(&chunk, 0), 1.0);
    assert_eq!(number_at(&chunk, 1), 2.0);
}

#[test]
fn number_within_epsilon_finds_the_first_match() {
    let mut chunk = Chunk::default();
    assert_eq!(intern_number(&mut chunk, 0.5), 0);
    assert_eq!(intern_number(&mut chunk, 0.5 + f64::EPSILON / 4.0), 0);
    assert_eq!(intern_number(&mut chunk, 0.5 + f64::EPSILON), 1);
    assert_eq!(chunk.constants.len(), 2);
}

#[test]
fn numbers_and_strings_do_not_mix() {
    let mut chunk = Chunk::default();
    assert_eq!(chunk.add_constant_string("1"), 0);
    assert_eq!(intern_number(&mut chunk, 1.0), 1);
    assert_eq!(chunk.add_constant_string("1"), 0);
    assert_eq!(intern_number(&mut chunk, 1.0), 1);
    assert!(matches!(&chunk.constants[0], Constant::String(text) if text == "1"));
    assert!(matches!(&chunk.constants[1], Constant::Number(text) if text == "1"));
}

#[test]
fn find_string_and_number() {
    let mut chunk = Chunk::default();
    chunk.add_constant(Constant::Number("3".to_string()));
    chunk.add_constant(Constant::String("x".to_string()));
    chunk.add_constant(Constant::String("x".to_string()));
    assert_eq!(chunk.find_string("x"), Some(1));
    assert_eq!(chunk.find_string("3"), None);
    assert_eq!(chunk.find_number(|text: &String| text == "3"), Some(0));
    assert_eq!(chunk.find_number(|text: &String| text == "x"), None);
    assert_eq!(chunk.find_number(|_: &String| true), Some(0));
}

#[test]
fn add_constant_always_appends() {
    let mut chunk = Chunk::default();
    assert_eq!(chunk.add_constant(Constant::String("a".to_string())), 0);
    assert_eq!(chunk.add_constant(Constant::String("a".to_string())), 1);
    assert_eq!(chunk.add_constant(Constant::Number("1".to_string())), 2);
    assert_eq!(chunk.constants.len(), 3);
    assert_eq!(chunk.add_constant_string("a"), 0);
}

#[test]
fn indices_stay_as_the_pool_grows() {
    let mut chunk = Chunk::default();
    let a = chunk.add_constant_string("a");
    let one = intern_number(&mut chunk, 1.0);
    for i in 0..20 {
        chunk.add_constant_string(&format!("s{}", i));
        intern_number(&mut chunk, 10.0 + i as f64);
    }
    assert_eq!(chunk.add_constant_string("a"), a);
    assert_eq!(intern_number(&mut chunk, 1.0), one);
    assert!(matches!(&chunk.constants[a], Constant::String(text) if text == "a"));
    assert_eq!(chunk.constants.len(), 42);
}

#[test]
fn instructions_are_appended_in_order() {
    let mut chunk = Chunk::default();
    chunk.append_instruction(Op::Nil, LineNo::new(3));
    chunk.append_instruction(Op::Constant(9), LineNo::new(1));
    chunk.append_instruction(Op::Nil, LineNo::new(3));
    assert_eq!(chunk.code.len(), 3);
    assert!(matches!(chunk.code[0], (Op::Nil, LineNo { value: 3 })));
    assert!(matches!(chunk.code[1], (Op::Constant(9), LineNo { value: 1 })));
    assert!(matches!(chunk.code[2], (Op::Nil, LineNo { value: 3 })));
    assert!(chunk.constants.is_empty());
}

#[test]
fn constant_rendering() {
    assert_eq!(Constant::Number("1.5".to_string()).render(), "1.5");
    assert_eq!(Constant::String("hi".to_string()).render(), "\"hi\"");
    assert_eq!(Constant::String(String::new()).render(), "\"\"");
}

#[test]
fn function_starts_empty() {
    let function = Function::default();
    assert_eq!(function.arity, 0);
    assert!(function.name.is_empty());
    assert!(function.chunk.code.is_empty());
    assert!(function.chunk.constants.is_empty());
}
