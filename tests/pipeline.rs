use rune_compiler::ast::{
    Argument, ArgumentValue, CapabilityInstruction, FromInstruction, Ident, Instruction, Literal,
    LiteralKind, ModelInstruction, OutInstruction, Path, ProcBlockInstruction, RunInstruction,
    Runefile, Span, Type, TypeKind,
};
use rune_compiler::builtins::{source, Arguments, SourceError};
use rune_compiler::codegen::generate_source;
use rune_compiler::lower::{proc_block_params, process_instructions, LowerError, StageKind};
use rune_compiler::text::IntErrorKind;

fn span(a: u32, b: u32) -> Span {
    Span::new(a, b)
}

fn ident(name: &str) -> Ident {
    Ident::new(name.to_string(), span(0, 0))
}

fn inferred() -> Type {
    Type { kind: TypeKind::Inferred, span: span(0, 0) }
}

fn capability(name: &str) -> Instruction {
    Instruction::Capability(CapabilityInstruction {
        kind: ident("ACCEL"),
        name: ident(name),
        output_type: Type {
            kind: TypeKind::Buffer { element_type: ident("f32"), dimensions: vec![128, 3] },
            span: span(0, 0),
        },
        parameters: vec![],
        span: span(0, 10),
    })
}

fn proc_block(name: &str, path: &str) -> Instruction {
    Instruction::ProcBlock(ProcBlockInstruction {
        path: path.parse().unwrap(),
        input_type: inferred(),
        output_type: inferred(),
        name: ident(name),
        params: vec![Argument::literal(
            ident("scale"),
            Literal::new(LiteralKind::Integer(2), span(0, 0)),
            span(0, 0),
        )],
        span: span(11, 20),
    })
}

fn model(name: &str) -> Instruction {
    Instruction::Model(ModelInstruction {
        name: ident(name),
        file: "./sine.tflite".to_string(),
        input_type: Type { kind: TypeKind::Named(ident("f32")), span: span(0, 0) },
        output_type: inferred(),
        parameters: vec![],
        span: span(21, 30),
    })
}

fn run(steps: &[&str], at: u32) -> Instruction {
    Instruction::Run(RunInstruction {
        steps: steps.iter().map(|s| ident(s)).collect(),
        span: span(at, at + 5),
    })
}

fn out(kind: &str) -> Instruction {
    Instruction::Out(OutInstruction { out_type: ident(kind), span: span(40, 50) })
}

fn example() -> Runefile {
    Runefile {
        instructions: vec![
            Instruction::From(FromInstruction {
                image: "runicos/base".parse().unwrap(),
                span: span(0, 1),
            }),
            capability("accelerometer"),
            proc_block("normalize", "hotg-ai/rune#proc_blocks/normalize"),
            model("sine"),
            run(&["accelerometer", "normalize", "sine"], 31),
            out("serial"),
        ],
        span: span(0, 50),
    }
}

#[test]
fn example_pipeline_lowers_in_order() {
    let p = process_instructions(&example(), ".").unwrap();
    assert_eq!(p.nodes.len(), 3);
    let names: Vec<&str> = p.order.iter().map(|&i| p.nodes[i].name.as_str()).collect();
    assert_eq!(names, vec!["accelerometer", "normalize", "sine"]);
    assert_eq!(p.nodes[0].kind, StageKind::Capability);
    assert_eq!(p.nodes[1].kind, StageKind::ProcBlock);
    assert_eq!(p.nodes[2].kind, StageKind::Model);
    assert_eq!(p.nodes[1].instruction, 2);
    assert_eq!(p.sink, "serial");
    assert_eq!(p.dependencies.len(), 6);
    assert!(p.dependencies.contains_key("normalize"));
}

#[test]
fn example_pipeline_calls_stages_in_order_then_the_sink() {
    let p = process_instructions(&example(), ".").unwrap();
    let src = generate_source(&p);
    let call = &src[src.find("fn _call").unwrap()..];
    let a = call.find("stage_accelerometer(data, &[])").unwrap();
    let n = call.find("stage_normalize(data, &[(\"scale\", \"2\")])").unwrap();
    let s = call.find("stage_sine(data, &[])").unwrap();
    let sink = call.find("sink_serial(data)").unwrap();
    assert!(a < n && n < s && s < sink);
    assert!(src.contains("    register_capability(\"accelerometer\");\n"));
    assert!(src.contains("    register_proc_block(\"normalize\");\n"));
    assert!(src.contains("    register_model(\"sine\");\n"));
    assert!(src.contains("    register_output(\"serial\");\n"));
}

#[test]
fn compiling_twice_gives_identical_output() {
    let a = process_instructions(&example(), ".").unwrap();
    let b = process_instructions(&example(), ".").unwrap();
    assert_eq!(generate_source(&a), generate_source(&b));
    let da: Vec<_> = a.dependencies.entries().to_vec();
    let db: Vec<_> = b.dependencies.entries().to_vec();
    assert_eq!(da, db);
}

#[test]
fn generated_source_exact_text() {
    let rf = Runefile {
        instructions: vec![capability("rand"), run(&["rand"], 1)],
        span: span(0, 9),
    };
    let p = process_instructions(&rf, ".").unwrap();
    assert_eq!(
        generate_source(&p),
        "#![no_std]\nextern crate alloc;\n\n\n\
         #[no_mangle]\npub extern \"C\" fn _manifest() -> u32 {\n    register_capability(\"rand\");\n    register_output(\"serial\");\n    1\n}\n\n\
         #[no_mangle]\npub extern \"C\" fn _call(capability_type: i32, input_type: i32, capability_idx: i32) -> i32 {\n    let data = ();\n    let data = stage_rand(data, &[]);\n    sink_serial(data);\n    0\n}\n"
    );
}

#[test]
fn run_step_naming_an_undeclared_stage_is_dangling() {
    let rf = Runefile {
        instructions: vec![capability("a"), run(&["a", "missing", "other"], 7)],
        span: span(0, 9),
    };
    assert_eq!(
        process_instructions(&rf, ".").unwrap_err(),
        LowerError::DanglingReference { name: "missing".to_string(), span: span(7, 12) }
    );
}

#[test]
fn duplicate_stage_names_are_rejected() {
    let rf = Runefile {
        instructions: vec![capability("a"), model("a")],
        span: span(0, 9),
    };
    assert_eq!(
        process_instructions(&rf, ".").unwrap_err(),
        LowerError::DuplicateName { name: "a".to_string() }
    );
}

#[test]
fn conflicting_proc_block_dependency() {
    let rf = Runefile {
        instructions: vec![proc_block("log", "log@0.3")],
        span: span(0, 9),
    };
    assert_eq!(
        process_instructions(&rf, ".").unwrap_err(),
        LowerError::ConflictingDependency { name: "log".to_string() }
    );
}

#[test]
fn no_model_or_proc_block_gives_the_base_dependencies() {
    let rf = Runefile { instructions: vec![capability("a"), run(&["a"], 1)], span: span(0, 9) };
    let p = process_instructions(&rf, ".").unwrap();
    assert_eq!(p.dependencies.len(), 5);
}

#[test]
fn sink_defaults_to_serial_and_last_out_wins() {
    let rf = Runefile { instructions: vec![], span: span(0, 0) };
    let p = process_instructions(&rf, ".").unwrap();
    assert_eq!(p.sink, "serial");
    assert!(p.order.is_empty());
    let rf = Runefile { instructions: vec![out("tensor"), out("ble")], span: span(0, 0) };
    assert_eq!(process_instructions(&rf, ".").unwrap().sink, "ble");
}

#[test]
fn instruction_span_and_ident_equality() {
    assert_eq!(capability("a").span(), span(0, 10));
    assert_eq!(out("x").span(), span(40, 50));
    assert_eq!(Ident::new("a".to_string(), span(1, 2)), Ident::new("a".to_string(), span(5, 9)));
    assert_ne!(ident("a"), ident("b"));
    let list = Argument::list(ident("labels"), vec!["up".to_string()], span(0, 0));
    assert!(matches!(list.value, ArgumentValue::List(ref v) if v == &vec!["up".to_string()]));
    let p = Path::new("a".to_string(), None, Some("1".to_string()), span(0, 1));
    assert_eq!(p.version.as_deref(), Some("1"));
}

fn args(pairs: &[(&str, &str)]) -> Arguments {
    Arguments { values: pairs.iter().map(|(k, v)| (k.to_string(), v.to_string())).collect() }
}

#[test]
fn source_picks_the_asked_input() {
    let inputs = [10, 20, 30];
    assert_eq!(source(&inputs, &args(&[])), Ok(&10));
    assert_eq!(source(&inputs, &args(&[("source", "2")])), Ok(&30));
    assert_eq!(source(&inputs, &args(&[("other", "x"), ("source", "1"), ("source", "2")])), Ok(&20));
}

#[test]
fn source_errors() {
    let none: [u8; 0] = [];
    assert_eq!(source(&none, &args(&[])), Err(SourceError::NoSources { index: 0 }));
    assert_eq!(
        source(&[1, 2], &args(&[("source", "5")])),
        Err(SourceError::OutOfRange { index: 5, available: 2 })
    );
    assert_eq!(
        source(&[1, 2], &args(&[("source", "one")])),
        Err(SourceError::BadArgument { value: "one".to_string(), reason: IntErrorKind::InvalidDigit })
    );
    assert_eq!(args(&[("source", "7")]).parse_or_default("source", 3), Ok(7));
    assert_eq!(args(&[]).parse_or_default("source", 3), Ok(3));
}

#[test]
fn parameter_table_by_proc_block() {
    let rf = example();
    let table = proc_block_params(&rf);
    assert_eq!(table.len(), 1);
    assert_eq!(table[0].0, "normalize");
    assert_eq!(table[0].1.len(), 1);
    assert_eq!(table[0].1[0].name.value, "scale");
    match &table[0].1[0].value {
        ArgumentValue::Literal(l) => assert!(matches!(l.kind, LiteralKind::Integer(2))),
        other => panic!("{:?}", other),
    }
}
