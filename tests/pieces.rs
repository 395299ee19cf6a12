use letlang::emit::Emit;
use letlang::emitter::ObjectEmitter;
use letlang::error::{raise, Error};
use letlang::module::{link, relocate, wrapping_add, Module, NamedLabels};
use letlang::parser::compile;
use letlang::vm::{execute, VMError};
use letlang::opcodes;
use letlang::parser::Parser;
use letlang::precedence::get;
use letlang::resolver::{Index, Name};
use letlang::string_array::{find_terminator, StringArray, StringBuilder};
use letlang::text::push_decimal;

#[test]
fn string_pool_interns_once() {
    let mut pool = StringArray::new();
    let a = pool.push(b"abc");
    let b = pool.push(b"de");
    let again = pool.push(b"abc");
    assert_eq!((a, b, again), (0, 4, 0));
    assert_eq!(pool.index_of(b"de"), Some(4));
    assert_eq!(pool.index_of(b"d"), None);
    assert_eq!(pool.get(4), b"de".to_vec());
    let mut builder = StringBuilder::new();
    builder.push(b'd');
    builder.push(b'e');
    assert_eq!(builder.build(&mut pool), 4);
    assert_eq!(find_terminator(b"ab\0c\0", 3), 4);
}

#[test]
fn object_emitter_qualifies_labels() {
    let mut e = ObjectEmitter::new();
    e.label_named(b"f").unwrap();
    e.integer(1).unwrap();
    e.ret().unwrap();
    let bytes = e.finish(b"util").unwrap();
    let m = Module::read(&bytes).unwrap();
    assert_eq!(m.labels.get(b"util.f"), Some(0));
    assert_eq!(m.opcodes, vec![opcodes::INT1, 1, opcodes::RET]);
}

#[test]
fn labels_merge_rebases_and_rejects() {
    let mut a = NamedLabels::new();
    a.push(b"x", 1).unwrap();
    let mut b = NamedLabels::new();
    b.push(b"y", 2).unwrap();
    a.merge(&b, 10).unwrap();
    assert_eq!(a.get(b"y"), Some(12));
    assert_eq!(a.merge(&b, 0), Err(Error::DuplicateLabel));
}

#[test]
fn relocation_moves_only_addresses() {
    let code = vec![opcodes::INT1, 5, opcodes::JP, 0, 0, 0, 0, 0, 0, 0, 3, opcodes::RET];
    let moved = relocate(&code, 100).unwrap();
    assert_eq!(moved, vec![opcodes::INT1, 5, opcodes::JP, 0, 0, 0, 0, 0, 0, 0, 103, opcodes::RET]);
    assert_eq!(relocate(&[opcodes::JP, 0, 0], 1), None);
    assert_eq!(wrapping_add(u64::MAX, 2), 1);
}

#[test]
fn name_and_index_records() {
    let mut n = Name::new();
    n.link(b"f", 0);
    n.label(b"f", 9).unwrap();
    assert_eq!(n.label(b"f", 1), Err(Error::DuplicateLabel));
    let info = n.get(b"f");
    assert_eq!(info.address, Some(9));
    assert_eq!(info.links, vec![0]);
    let mut code = vec![0u8; 8];
    n.resolve(&mut code).unwrap();
    assert_eq!(code, vec![0, 0, 0, 0, 0, 0, 0, 9]);
    assert_eq!(String::from_utf8(n.save(b"")).unwrap(), "f 9 0\n");
    let mut i = Index::new();
    i.link(4, 0);
    i.label(4, 258).unwrap();
    let mut code = vec![0u8; 8];
    i.resolve(&mut code).unwrap();
    assert_eq!(code, vec![0, 0, 0, 0, 0, 0, 1, 2]);
}

#[test]
fn parser_reports_token_range() {
    let mut p = Parser::new(b"let = 1".to_vec(), ObjectEmitter::new());
    assert_eq!(p.parse(), Err(Error::UnexpectedToken));
    assert_eq!(p.range(), (4, 5));
}

#[test]
fn small_helpers() {
    assert_eq!(raise::<u8>(Error::Truncated), Err(Error::Truncated));
    assert_eq!(get((b'-', b' ', b' ')), 10);
    let mut out = Vec::new();
    push_decimal(&mut out, 1234567);
    assert_eq!(out, b"1234567".to_vec());
}

#[test]
fn runaway_recursion_overflows_the_stack() {
    let m = link(vec![compile(b"fn f(x) f(x) end  f(1)").unwrap()]).unwrap();
    assert_eq!(execute(&m, 1_000_000), Err(VMError::StackOverflow));
}

#[test]
fn linking_is_associative_on_disjoint_symbols() {
    let a = || compile(b"fn a() 1 end").unwrap();
    let b = || compile(b"fn b() a() + 2 end").unwrap();
    let c = || compile(b"b() + c_ext").unwrap();
    let left = link(vec![link(vec![a(), b()]).unwrap(), c()]).unwrap();
    let right = link(vec![a(), link(vec![b(), c()]).unwrap()]).unwrap();
    assert_eq!(left.opcodes, right.opcodes);
    assert_eq!(left.write().unwrap(), right.write().unwrap());
}

#[test]
fn symbol_names_lose_their_spaces() {
    let mut n = Name::new();
    n.label(b"a b", 1).unwrap();
    n.link(b"x.y", 4);
    assert_eq!(String::from_utf8(n.save(b"m")).unwrap(), "m.ab 1\nx.y None 4\n");
}

#[test]
fn trailing_dot_is_not_part_of_a_number() {
    assert_eq!(compile(b"12.").err(), Some(Error::UnexpectedToken));
    assert_eq!(compile(b"1.5").err(), Some(Error::UnsupportedReal));
}

#[test]
fn blank_source_compiles_to_nothing() {
    let m = compile(b"  \n\t ").unwrap();
    assert!(m.opcodes.is_empty());
}
