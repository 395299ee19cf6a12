use letlang::assembler::assemble_module;
use letlang::error::Error;
use letlang::module::{link, Module};
use letlang::parser::{compile, compile_to_assembly};
use letlang::vm::{execute, Value};

fn run(source: &[u8]) -> Value {
    let module = compile(source).expect("compiles");
    let linked = link(vec![module]).expect("links");
    execute(&linked, 1_000_000).expect("runs")
}

#[test]
fn call_with_two_arguments() {
    assert_eq!(run(b"fn add(a b) a + b end  add(2 3)"), Value::Integer(5));
}

#[test]
fn recursive_sum() {
    assert_eq!(
        run(b"fn f(x) if x < 2 x else f(x-1)+x end end  f(5)"),
        Value::Integer(15)
    );
}

#[test]
fn global_lets() {
    assert_eq!(run(b"let x = 10  let y = 20  x * y"), Value::Integer(200));
}

#[test]
fn if_elif_else_first_arm() {
    assert_eq!(run(b"if 1 == 1 7 elif 0 8 else 9 end"), Value::Integer(7));
}

#[test]
fn if_elif_else_second_arm() {
    assert_eq!(run(b"if 0 == 1 7 elif 1 == 1 8 else 9 end"), Value::Integer(8));
}

#[test]
fn if_without_else_yields_void() {
    assert_eq!(run(b"if 0 == 1 7 end"), Value::Void);
}

#[test]
fn precedence_climbing() {
    assert_eq!(run(b"2 + 3 * 4"), Value::Integer(14));
    assert_eq!(run(b"(2 + 3) * 4"), Value::Integer(20));
    assert_eq!(run(b"10 - 3 - 2"), Value::Integer(5));
}

#[test]
fn two_modules_linked() {
    let lib = compile(b"fn square(x) x*x end").unwrap();
    let main = compile(b"square(9)").unwrap();
    let linked = link(vec![lib, main]).unwrap();
    assert_eq!(execute(&linked, 1_000_000).unwrap(), Value::Integer(81));
}

#[test]
fn assembly_round_trip() {
    let source: &[u8] = b"fn f(x) if x < 2 x else f(x-1)+x end end  f(5)";
    let binary = compile(source).unwrap();
    let text = compile_to_assembly(source).unwrap();
    let reassembled = assemble_module(&text).unwrap();
    assert_eq!(binary.opcodes, reassembled.opcodes);
    assert_eq!(binary.write().unwrap(), reassembled.write().unwrap());
}

#[test]
fn duplicate_local_in_same_block() {
    assert_eq!(compile(b"let x = 1  let x = 2").err(), Some(Error::DuplicateLocal));
}

#[test]
fn shadowing_in_nested_block() {
    assert_eq!(
        run(b"let x = 1  if x == 1 let x = 5  x else 0 end"),
        Value::Integer(5)
    );
}

#[test]
fn module_file_round_trip() {
    let module = compile(b"fn g(a) a end  g(4)  h(1)").unwrap();
    let bytes = module.write().unwrap();
    let back = Module::read(&bytes).unwrap();
    assert_eq!(back.write().unwrap(), bytes);
    assert_eq!(back.opcodes, module.opcodes);
}
