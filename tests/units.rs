use letlang::assembler::{assemble, assemble_module};
use letlang::assembly_emitter::AssemblyEmitter;
use letlang::bytes::{read_label, read_u32, read_u32_vec, write_label, write_u32, write_u32_slice};
use letlang::emit::Emit;
use letlang::emitter::Emitter;
use letlang::error::Error;
use letlang::lexer::Lexer;
use letlang::line::{create, mark_range};
use letlang::module::{link, Linker, Module, NamedLabels, NamedLinks};
use letlang::opcodes;
use letlang::operators::{is_double_operator, is_single_operator, is_triple_operator};
use letlang::parser::compile;
use letlang::precedence::get;
use letlang::resolver::Resolver;
use letlang::scope::Function;
use letlang::text::parse_decimal;
use letlang::token::Token;
use letlang::vm::{execute, fetch_u8, State, VMError, Value};

#[test]
fn integer_width_classes() {
    let mut e = Emitter::new();
    e.integer(255).unwrap();
    e.integer(256).unwrap();
    e.integer(0xFF_FFFF).unwrap();
    e.integer(0x100_0000).unwrap();
    let m = e.into_module();
    assert_eq!(
        m.opcodes,
        vec![
            opcodes::INT1, 255,
            opcodes::INT3, 0, 1, 0,
            opcodes::INT3, 0xFF, 0xFF, 0xFF,
            opcodes::INT8, 0, 0, 0, 0, 1, 0, 0, 0
        ]
    );
}

#[test]
fn load_store_width_classes() {
    let mut e = Emitter::new();
    e.load(3);
    e.store(300);
    let m = e.into_module();
    assert_eq!(m.opcodes, vec![opcodes::LD1, 3, opcodes::ST3, 0, 1, 44]);
}

#[test]
fn unknown_operator_is_rejected() {
    let mut e = Emitter::new();
    assert_eq!(e.binary(*b"/  "), Err(Error::UnsupportedOperator));
    assert_eq!(e.binary(*b"== "), Ok(()));
    assert_eq!(e.into_module().opcodes, vec![opcodes::EQ]);
}

#[test]
fn forward_jump_is_resolved() {
    let mut e = Emitter::new();
    e.jump(7).unwrap();
    e.drop().unwrap();
    e.label(7).unwrap();
    e.ret().unwrap();
    e.resolve().unwrap();
    let m = e.into_module();
    assert_eq!(m.opcodes, vec![opcodes::JP, 0, 0, 0, 0, 0, 0, 0, 10, opcodes::DROP, opcodes::RET]);
}

#[test]
fn duplicate_labels_are_rejected() {
    let mut e = Emitter::new();
    e.label_named(b"f").unwrap();
    assert_eq!(e.label_named(b"f"), Err(Error::DuplicateLabel));
    e.label(1).unwrap();
    assert_eq!(e.label(1), Err(Error::DuplicateLabel));
}

#[test]
fn function_prologue_and_reserve() {
    let mut e = Emitter::new();
    let cursor = e.function(2).unwrap();
    assert_eq!(cursor, 1);
    e.reserve(cursor, 0x01020304);
    assert_eq!(e.offset(), 5);
    assert_eq!(e.into_module().opcodes, vec![2, 1, 2, 3, 4]);
}

#[test]
fn big_endian_fields() {
    let mut out = Vec::new();
    write_u32(&mut out, 0x0A0B0C0D);
    write_label(&mut out, b"ab").unwrap();
    write_u32_slice(&mut out, &[1, 2]).unwrap();
    assert_eq!(out, vec![10, 11, 12, 13, 2, b'a', b'b', 0, 0, 0, 2, 0, 0, 0, 1, 0, 0, 0, 2]);
    let mut pos = 0;
    assert_eq!(read_u32(&out, &mut pos), Ok(0x0A0B0C0D));
    assert_eq!(read_label(&out, &mut pos), Ok(b"ab".to_vec()));
    assert_eq!(read_u32_vec(&out, &mut pos), Ok(vec![1, 2]));
    assert_eq!(read_u32(&out, &mut pos), Err(Error::Truncated));
    assert_eq!(write_u32_slice(&mut out, &[1 << 40]), Err(Error::ValueTooLarge));
    assert_eq!(write_label(&mut out, &[0u8; 256]), Err(Error::NameTooLong));
}

#[test]
fn module_read_errors() {
    assert_eq!(Module::read(b"LE").err(), Some(Error::Truncated));
    assert_eq!(Module::read(b"LETX").err(), Some(Error::UnknownFormat));
    assert_eq!(Module::read(b"LET&\x00\x00\x00\x05ab").err(), Some(Error::Truncated));
    let dup = b"LET&\x00\x00\x00\x00\x00\x00\x00\x02\x01a\x00\x00\x00\x01\x01a\x00\x00\x00\x02";
    assert_eq!(Module::read(dup).err(), Some(Error::DuplicateLabel));
}

#[test]
fn module_bytes_exact() {
    let mut labels = NamedLabels::new();
    labels.push(b"f", 1).unwrap();
    let mut links = NamedLinks::new();
    links.push(b"g", 2);
    let m = Module { opcodes: vec![9], labels, links };
    let bytes = m.write().unwrap();
    assert_eq!(
        bytes,
        b"LET&\x00\x00\x00\x01\x09\x00\x00\x00\x01\x01f\x00\x00\x00\x01\x00\x00\x00\x01\x01g\x00\x00\x00\x01\x00\x00\x00\x02".to_vec()
    );
    assert_eq!(Module::read(&bytes).unwrap().write().unwrap(), bytes);
}

#[test]
fn prefixed_labels_are_qualified() {
    let mut labels = NamedLabels::new();
    labels.push(b"f", 0).unwrap();
    let m = Module { opcodes: vec![], labels, links: NamedLinks::new() };
    let bytes = m.write_prefixed(b"math").unwrap();
    let back = Module::read(&bytes).unwrap();
    assert_eq!(back.labels.get(b"math.f"), Some(0));
    assert_eq!(back.labels.get(b"f"), None);
}

#[test]
fn linking_single_module_resolves_it() {
    let mut e = Emitter::new();
    e.pointer(b"main").unwrap();
    e.label_named(b"main").unwrap();
    let m = e.into_module();
    let linked = link(vec![m]).unwrap();
    assert_eq!(linked.opcodes, vec![opcodes::PTR, 0, 0, 0, 0, 0, 0, 0, 9]);
}

#[test]
fn linking_relocates_addresses() {
    let a = compile(b"fn one() 1 end").unwrap();
    let len_a = a.opcodes.len();
    let mut e = Emitter::new();
    e.label_named(b"here").unwrap();
    e.jump_name(b"here").unwrap();
    let b = e.into_module();
    let linked = link(vec![a, b]).unwrap();
    let jump = &linked.opcodes[len_a..];
    assert_eq!(jump[0], opcodes::JP);
    assert_eq!(u64::from_be_bytes(jump[1..9].try_into().unwrap()), len_a as u64);
}

#[test]
fn linking_duplicate_symbols_fails() {
    let a = compile(b"fn f() 1 end").unwrap();
    let b = compile(b"fn f() 2 end").unwrap();
    assert_eq!(link(vec![a, b]).err(), Some(Error::DuplicateLabel));
    assert_eq!(link(vec![]).err(), Some(Error::NoModules));
}

#[test]
fn linker_over_files() {
    let mut linker = Linker::new();
    linker.link(&compile(b"fn square(x) x*x end").unwrap().write().unwrap()).unwrap();
    linker.link(&compile(b"square(9)").unwrap().write().unwrap()).unwrap();
    let bytes = linker.finish().unwrap();
    let module = Module::read(&bytes).unwrap();
    assert_eq!(execute(&module, 10_000).unwrap(), Value::Integer(81));
    assert_eq!(Linker::new().finish().err(), Some(Error::NoModules));
}

#[test]
fn lexer_tokens() {
    let mut lexer = Lexer::from(b"abc 12 3.5 <<= ) # 7. >>=".to_vec());
    let mut seen = Vec::new();
    loop {
        lexer.skip_whitespaces();
        match lexer.lex() {
            Some(t) => seen.push((t, lexer.buffer().to_vec())),
            None => break,
        }
    }
    assert_eq!(
        seen,
        vec![
            (Token::Identifier, b"abc".to_vec()),
            (Token::Integer, b"12".to_vec()),
            (Token::Real, b"3.5".to_vec()),
            (Token::Operator, b"<<=".to_vec()),
            (Token::Operator, b")".to_vec()),
            (Token::Unknown, b"#".to_vec()),
            (Token::Integer, b"7".to_vec()),
            (Token::Operator, b".".to_vec()),
            (Token::Operator, b">>=".to_vec()),
        ]
    );
    assert_eq!(lexer.offset(), 25);
}

#[test]
fn operator_tables() {
    assert!(is_single_operator(b'+'));
    assert!(!is_single_operator(b'#'));
    assert!(is_double_operator(b'=', b'='));
    assert!(is_double_operator(b'>', b'>'));
    assert!(is_triple_operator(b'>', b'>', b'='));
    assert!(is_triple_operator(b'<', b'<', b'='));
}

#[test]
fn precedence_table() {
    assert_eq!(get((b'*', b' ', b' ')), 11);
    assert_eq!(get((b'+', b' ', b' ')), 10);
    assert_eq!(get((b'<', b'<', b' ')), 9);
    assert_eq!(get((b'=', b'=', b' ')), 5);
    assert_eq!(get((b'|', b'|', b' ')), 3);
    assert_eq!(get((b'=', b' ', b' ')), 2);
    assert_eq!(get((b'x', b' ', b' ')), 0);
}

#[test]
fn decimal_parsing() {
    assert_eq!(parse_decimal(b"18446744073709551615"), Some(u64::MAX));
    assert_eq!(parse_decimal(b"18446744073709551616"), None);
    assert_eq!(parse_decimal(b"1a"), None);
    assert_eq!(parse_decimal(b""), None);
}

#[test]
fn parser_errors() {
    assert_eq!(compile(b"(1 + 2").err(), Some(Error::MissingDelimiter));
    assert_eq!(compile(b"1.5").err(), Some(Error::UnsupportedReal));
    assert_eq!(compile(b"99999999999999999999").err(), Some(Error::InvalidLiteral));
    assert_eq!(compile(b")").err(), Some(Error::UnexpectedToken));
    assert_eq!(compile(b"1 / 2").err(), Some(Error::UnsupportedOperator));
    assert_eq!(compile(b"fn f(a a) a end").err(), Some(Error::DuplicateLocal));
    let many: String = format!("f({})", "1 ".repeat(256));
    assert_eq!(compile(many.as_bytes()).err(), Some(Error::TooManyArguments));
}

#[test]
fn scopes_shadow_and_reject() {
    let mut f = Function::new();
    assert_eq!(f.var(b"x"), Ok(1));
    assert_eq!(f.var(b"x"), Err(Error::DuplicateLocal));
    f.push();
    assert_eq!(f.var(b"x"), Ok(2));
    assert_eq!(f.get(b"x"), Some(2));
    f.pop();
    assert_eq!(f.get(b"x"), Some(1));
    assert_eq!(f.get(b"y"), None);
}

#[test]
fn assembly_listing_text() {
    let mut a = AssemblyEmitter::new();
    a.integer(5).unwrap();
    a.binary(*b"== ").unwrap();
    a.label(3).unwrap();
    a.jump_false(3).unwrap();
    a.pointer(b"f").unwrap();
    assert_eq!(
        String::from_utf8(a.text()).unwrap(),
        "\tINT 5\n\tOP ==\n@lbl_3:\n\tJPF @lbl_3\n\tPTR f\n"
    );
}

#[test]
fn assembler_errors_and_labels() {
    assert_eq!(assemble_module(b"\tFOO 1\n").err(), Some(Error::UnknownMnemonic));
    assert_eq!(assemble_module(b"\tINT x\n").err(), Some(Error::IllFormedOperand));
    assert_eq!(assemble_module(b"\tOP ====\n").err(), Some(Error::IllFormedOperand));
    let m = assemble_module(b"a: b:\n\tINT 1\n\tRET\n\n").unwrap();
    assert_eq!(m.labels.get(b"a"), Some(0));
    assert_eq!(m.labels.get(b"b"), Some(0));
    assert_eq!(m.opcodes, vec![opcodes::INT1, 1, opcodes::RET]);
    assert!(assemble(b"\tCALL 300\n", Emitter::new()).is_err());
}

#[test]
fn resolver_patches_and_saves() {
    let mut r = Resolver::new();
    let mut code = vec![0u8; 16];
    r.push_link_name(b"f", 0);
    r.push_link_name(b"ext", 8);
    r.push_label_name(b"f", 3).unwrap();
    assert_eq!(r.push_label_name(b"f", 4), Err(Error::DuplicateLabel));
    r.push_link_index(1, 8);
    r.push_label_index(1, 7).unwrap();
    assert_eq!(r.push_label_index(1, 7), Err(Error::DuplicateLabel));
    r.resolve(&mut code).unwrap();
    assert_eq!(&code[0..8], &[0, 0, 0, 0, 0, 0, 0, 3]);
    assert_eq!(&code[8..16], &[0, 0, 0, 0, 0, 0, 0, 7]);
    assert_eq!(String::from_utf8(r.save_labels(b"m")).unwrap(), "m.f 3\next.__ctor__ None 8\n");
    let mut short = vec![0u8; 4];
    let mut r2 = Resolver::new();
    r2.push_link_name(b"f", 0);
    r2.push_label_name(b"f", 1).unwrap();
    assert_eq!(r2.resolve(&mut short), Err(Error::PatchOutOfBounds));
}

#[test]
fn vm_errors() {
    let mut s = State::new();
    assert_eq!(s.step(&[opcodes::DROP]), Err(VMError::StackUnderflow));
    let mut s = State::new();
    assert_eq!(s.step(&[]), Err(VMError::FetchOpcodeError));
    let mut s = State::new();
    assert_eq!(s.step(&[0xEE]), Err(VMError::Custom));
    assert!(s.message().is_some());
    assert_eq!(fetch_u8(&[1, 2], 1), Ok(2));
    assert_eq!(fetch_u8(&[1, 2], 2), Err(VMError::FetchOpcodeError));
}

#[test]
fn vm_type_mismatch_and_arity() {
    let m = compile(b"fn f(a) a end  f(1 2)").unwrap();
    let m = link(vec![m]).unwrap();
    assert_eq!(execute(&m, 10_000), Err(VMError::Custom));
    let m = link(vec![compile(b"(1 == 1) + 2").unwrap()]).unwrap();
    assert_eq!(execute(&m, 10_000), Err(VMError::Custom));
}

#[test]
fn vm_wrapping_arithmetic() {
    let m = link(vec![compile(b"9223372036854775807 + 1").unwrap()]).unwrap();
    assert_eq!(execute(&m, 10_000).unwrap(), Value::Integer(i64::MIN));
}

#[test]
fn line_info_and_marker() {
    let src = b"ab\ncd\nef";
    let info = create(src, 4);
    assert_eq!((info.start, info.number), (3, 2));
    assert_eq!(mark_range(3, 4, 6), b" ^^\n".to_vec());
}
