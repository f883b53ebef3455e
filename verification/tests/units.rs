use mirage::class::Class;
use mirage::codec::{decode_class, decode_function, decode_metadata, encode_class, encode_function,
    encode_metadata};
use mirage::function::{Function, MiFunction};
use mirage::args::MiArgs;
use mirage::instructions::Instruction;
use mirage::meta::Metadata;
use mirage::registers::Registers;
use mirage::render::format_function;
use mirage::stack::{CallStack, StackFrame};
use mirage::tokens::{tokenize, TokenType};
use mirage::value::{IntoValue, MiType, MiValue, ToStringDebugged};

#[test]
fn metadata_round_trips_through_the_codec() {
    let meta = Metadata {
        package: String::from("demo"),
        version: Some(String::from("0.1.0")),
        timestamp: 1_700_000_000,
        author: None,
        debug: false,
        instructions: vec![
            Instruction::Move(0, MiValue::from_i32(5)),
            Instruction::DefineLabel(String::from("L")),
            Instruction::JumpUnconditional(String::from("L")),
            Instruction::DefineFnLabel(
                String::from("f"),
                vec![String::from("x")],
                MiType::Int,
            ),
            Instruction::Return,
        ],
        source_code: None,
        description: String::from("a demo image"),
        license: Some(String::from("MIT")),
        total_instructions: 5,
        compiled_version: String::from("1.2.1"),
    };
    let bytes = encode_metadata(&meta);
    let back = decode_metadata(&bytes).expect("decode");
    assert_eq!(back.package, "demo");
    assert_eq!(back.version.as_deref(), Some("0.1.0"));
    assert_eq!(back.timestamp, 1_700_000_000);
    assert_eq!(back.total_instructions, 5);
    assert_eq!(back.compiled_version, "1.2.1");
    assert_eq!(back.instructions.len(), 5);
    // The byte form of the reread record is identical.
    assert_eq!(encode_metadata(&back), bytes);
}

#[test]
fn truncated_image_is_rejected() {
    let meta = Metadata {
        package: String::from("p"),
        version: None,
        timestamp: 0,
        author: None,
        debug: true,
        instructions: vec![Instruction::Return],
        source_code: None,
        description: String::new(),
        license: None,
        total_instructions: 1,
        compiled_version: String::from("1.2.1"),
    };
    let mut bytes = encode_metadata(&meta);
    bytes.pop();
    assert!(decode_metadata(&bytes).is_none());
}

#[test]
fn class_round_trips_and_renders_debugged() {
    let class = Class {
        name: String::from("Point"),
        properties: vec![
            (String::from("x"), MiValue::from_i32(3)),
            (String::from("y"), MiValue::from_i32(4)),
        ],
    };
    let bytes = encode_class(&class);
    let back = decode_class(&bytes).expect("decode");
    assert_eq!(back.name, "Point");
    assert_eq!(back.properties.len(), 2);
    let value = class.into_value();
    assert_eq!(value.variant, MiType::Class);
    assert_eq!(value.to_string(), "<class at 0>");
    assert_eq!(
        value.to_string_debugged(),
        "Point {\n   x: 3,\n   y: 4,\n}"
    );
}

#[test]
fn function_round_trips_and_renders() {
    let fun = MiFunction {
        name: String::from("add2"),
        arguments: MiArgs {
            arguments: vec![
                (String::from("a"), MiType::Int),
                (String::from("b"), MiType::Int),
            ],
            variant: None,
        },
        returns: MiType::Int,
        instructions: vec![Instruction::Return],
    };
    assert_eq!(format_function(&fun), "fun add2(int, int): Int");
    let value = Function::Defined(fun).into_value();
    assert_eq!(value.to_string(), "fun add2(int, int): Int");
    let bytes = encode_function(&Function::Builtin(7));
    let back = decode_function(&bytes).expect("decode");
    match back {
        Function::Builtin(k) => assert_eq!(k, 7),
        Function::Defined(_) => panic!("wrong variant"),
    }
    assert_eq!(
        Function::Builtin(7).into_value().to_string(),
        "<builtin function at index=7>"
    );
}

#[test]
fn value_constructors_encode_canonical_payloads() {
    let v = MiValue::from_i32(-2);
    assert_eq!(v.bytes, vec![0xfe, 0xff, 0xff, 0xff]);
    assert_eq!(v.read_i32(), -2);
    assert_eq!(v.to_string(), "-2");
    let b = MiValue::from_bool(true);
    assert_eq!(b.bytes, vec![1]);
    assert_eq!(b.to_string(), "true");
    let s = MiValue::from_str_value("hi");
    assert_eq!(s.bytes, vec![2, 0, 0, 0, 0, 0, 0, 0, b'h', b'i']);
    assert_eq!(s.to_string(), "hi");
    assert_eq!(s.to_string_debugged(), "\"hi\"");
    let noncanonical = MiValue::new(vec![2], MiType::Bool);
    assert_eq!(noncanonical.to_string(), "true");
    assert_eq!(noncanonical.to_string_debugged(), "true");
    let n = MiValue::none_value();
    assert!(n.bytes.is_empty());
    assert_eq!(n.to_string(), "None");
    assert!(MiType::Int.is_numeric());
    assert!(MiType::Float.is_numeric());
    assert!(!MiType::Bool.is_numeric());
}

#[test]
fn registers_reject_index_sixteen() {
    let mut regs = Registers::new();
    assert!(regs.set(15, MiValue::from_i32(1)).is_ok());
    let err = regs.set(16, MiValue::from_i32(1)).unwrap_err();
    assert_eq!(err.name, "InvalidRegister");
    assert!(regs.get(15).is_some());
    assert!(regs.get(16).is_none());
    assert!(regs.get(3).is_none());
}

#[test]
fn the_four_thousandth_push_overflows() {
    let mut stack = CallStack::new();
    for i in 0..4000 {
        let frame = StackFrame::new(format!("f{}", i), Vec::new(), None, false, 0);
        if i < 3999 {
            assert!(stack.push_frame(frame).is_ok(), "push {} should fit", i);
        } else {
            // The four-thousandth push is the one that overflows.
            let err = stack.push_frame(frame).unwrap_err();
            assert!(err.contains("4000"));
        }
    }
}

#[test]
fn tokenizer_is_deterministic_and_monotone() {
    let src = "move r0 int 2\nmove r1 string \"a\\nb\"\nadd r0 r1 r2 -- comment\nreturn\n";
    let first = tokenize(src, "f.mir").expect("tokenize");
    let second = tokenize(src, "f.mir").expect("tokenize");
    assert_eq!(first.len(), second.len());
    for (a, b) in first.iter().zip(second.iter()) {
        assert_eq!(format!("{:?}", a), format!("{:?}", b));
    }
    for w in first.windows(2) {
        assert!(
            w[0].line < w[1].line || (w[0].line == w[1].line && w[0].column <= w[1].column)
        );
    }
}

#[test]
fn comments_produce_no_tokens() {
    let tokens = tokenize("-- any text\n", "f.mir").expect("tokenize");
    assert!(tokens.is_empty());
}

#[test]
fn unrecognized_character_is_rejected() {
    let err = tokenize("@", "f.mir").unwrap_err();
    assert!(err.contains("Unrecognized token '@'"));
}

#[test]
fn tokenizer_rejects_register_sixteen() {
    let err = tokenize("move r16 int 1\n", "f.mir").unwrap_err();
    assert!(err.contains("Invalid register index 16"));
}

#[test]
fn tokenizer_rejects_unterminated_string() {
    let err = tokenize("move r0 string \"oops\n", "f.mir").unwrap_err();
    assert!(err.contains("Unclosed string literal"));
}

#[test]
fn unicode_escape_0041_decodes_to_a() {
    let tokens = tokenize("move r0 string \"\\u0041\"\n", "f.mir").expect("tokenize");
    let mut found = false;
    for t in &tokens {
        if let TokenType::String(s) = &t.token_type {
            assert_eq!(s, "A");
            found = true;
        }
    }
    assert!(found);
}

#[test]
fn parser_accepts_every_mnemonic_family() {
    let src = "move r0 int 1\nmovebetween r0 r1\nmoveargument \"x\" r2\nmoveasargument r0\nnot r0 r1\nsetvariable r0 v\nmovfromvariable v r1\nthrowfrom r0 r1\ndefinelabel L\njumpunc L\njumpc r0 L\ncall f\ndefinefnlabel f 2 x int\nendfunction\nstdoutwrite r0\nstdoutwritedebugged r0\nstdoutflush\nstderrwrite r0\nstderrwritedebugged r0\nstderrflush\nbufferedstdinread r0\nreturn\n";
    let tokens = tokenize(src, "f.mir").expect("tokenize");
    let mut parser = mirage::parser::Parser::new(tokens);
    let instrs = parser.parse().expect("parse");
    assert_eq!(instrs.len(), 22);
}

#[test]
fn parser_definefnlabel_reads_one_fewer_identifiers() {
    // A count of 3 consumes two identifiers before the return type.
    let src = "definefnlabel g 3 x y None\n";
    let tokens = tokenize(src, "f.mir").expect("tokenize");
    let mut parser = mirage::parser::Parser::new(tokens);
    let instrs = parser.parse().expect("parse");
    match &instrs[0] {
        Instruction::DefineFnLabel(name, params, ret) => {
            assert_eq!(name, "g");
            assert_eq!(params.len(), 2);
            assert_eq!(*ret, MiType::NoneType);
        }
        _ => panic!("wrong instruction"),
    }
}

#[test]
fn parser_rejects_nonkeyword_at_statement_position() {
    let tokens = tokenize("r0 r1\n", "f.mir").expect("tokenize");
    let mut parser = mirage::parser::Parser::new(tokens);
    assert!(parser.parse().is_err());
}

#[test]
fn number_rendering_matches_decimal() {
    assert_eq!(mirage::numfmt::i32_to_dec_string(0), "0");
    assert_eq!(mirage::numfmt::i32_to_dec_string(2147483647), "2147483647");
    assert_eq!(mirage::numfmt::i32_to_dec_string(-2147483648), "-2147483648");
    assert_eq!(mirage::numfmt::u64_to_dec_string(10), "10");
}
