use rune_compiler::ast::{ArgumentValue, Instruction, LiteralKind, Span, TypeKind};
use rune_compiler::codegen::generate_source;
use rune_compiler::lower::{process_instructions, LowerError};
use rune_compiler::parser::{parse, SyntaxError};

const EXAMPLE: &str = "from runicos/base\n\
capability accelerometer ACCEL\n\
proc-block normalize hotg-ai/rune#proc_blocks/normalize\n\
model sine ./sine.tflite\n\
run accelerometer, normalize, sine\n\
out serial\n";

#[test]
fn example_runefile_parses_in_order() {
    let rf = parse(EXAMPLE).unwrap();
    assert_eq!(rf.instructions.len(), 6);
    match &rf.instructions[0] {
        Instruction::From(f) => assert_eq!(f.image.base, "runicos/base"),
        other => panic!("{:?}", other),
    }
    match &rf.instructions[1] {
        Instruction::Capability(c) => {
            assert_eq!(c.name.value, "accelerometer");
            assert_eq!(c.kind.value, "ACCEL");
        },
        other => panic!("{:?}", other),
    }
    match &rf.instructions[2] {
        Instruction::ProcBlock(p) => {
            assert_eq!(p.name.value, "normalize");
            assert_eq!(p.path.base, "hotg-ai/rune");
            assert_eq!(p.path.sub_path.as_deref(), Some("proc_blocks/normalize"));
        },
        other => panic!("{:?}", other),
    }
    match &rf.instructions[3] {
        Instruction::Model(m) => {
            assert_eq!(m.name.value, "sine");
            assert_eq!(m.file, "./sine.tflite");
        },
        other => panic!("{:?}", other),
    }
    match &rf.instructions[4] {
        Instruction::Run(r) => {
            let names: Vec<&str> = r.steps.iter().map(|s| s.value.as_str()).collect();
            assert_eq!(names, vec!["accelerometer", "normalize", "sine"]);
        },
        other => panic!("{:?}", other),
    }
    match &rf.instructions[5] {
        Instruction::Out(o) => assert_eq!(o.out_type.value, "serial"),
        other => panic!("{:?}", other),
    }
    assert_eq!(rf.instructions[1].span(), Span::new(18, 48));
}

#[test]
fn example_runefile_compiles_to_ordered_calls() {
    let rf = parse(EXAMPLE).unwrap();
    let p = process_instructions(&rf, ".").unwrap();
    let names: Vec<&str> = p.order.iter().map(|&i| p.nodes[i].name.as_str()).collect();
    assert_eq!(names, vec!["accelerometer", "normalize", "sine"]);
    let src = generate_source(&p);
    assert!(src.ends_with(
        "    let data = stage_accelerometer(data, &[]);\n    let data = stage_normalize(data, &[]);\n    let data = stage_sine(data, &[]);\n    sink_serial(data);\n    0\n}\n"
    ));
}

#[test]
fn same_text_compiles_to_the_same_source() {
    let a = generate_source(&process_instructions(&parse(EXAMPLE).unwrap(), ".").unwrap());
    let b = generate_source(&process_instructions(&parse(EXAMPLE).unwrap(), ".").unwrap());
    assert_eq!(a, b);
}

#[test]
fn blank_lines_and_spaces_are_skipped() {
    let rf = parse("\n   \n  out   ble  \n\n").unwrap();
    assert_eq!(rf.instructions.len(), 1);
    match &rf.instructions[0] {
        Instruction::Out(o) => assert_eq!(o.out_type.value, "ble"),
        other => panic!("{:?}", other),
    }
    assert!(parse("").unwrap().instructions.is_empty());
}

#[test]
fn unknown_steps_are_syntax_errors() {
    assert_eq!(
        parse("out serial\n  launch rockets \n").unwrap_err(),
        SyntaxError { text: "launch rockets".to_string(), span: Span::new(13, 27) }
    );
}

#[test]
fn malformed_steps_are_syntax_errors() {
    for bad in ["capability onlyname", "model", "run", "run a,,b", "out two words", "from @1", "proc-block x a@", "capability accelerometer ACCEL --n 128", "model sine ./sine.tflite extra", "proc-block n a/b c"] {
        let err = parse(bad).unwrap_err();
        assert_eq!(err.text, bad);
    }
}

#[test]
fn dangling_run_step_from_text() {
    let rf = parse("capability a ACCEL\nrun a, b\n").unwrap();
    match process_instructions(&rf, ".").unwrap_err() {
        LowerError::DanglingReference { name, span } => {
            assert_eq!(name, "b");
            assert_eq!(span, Span::new(19, 27));
        },
        other => panic!("{:?}", other),
    }
}

#[test]
fn proc_blocks_in_order() {
    let rf = parse("proc-block a x@1\ncapability c K\nproc-block b ./y\n").unwrap();
    let got = rune_compiler::compile::proc_blocks(&rf);
    let names: Vec<(&str, &str)> = got.iter().map(|(n, p)| (n.as_str(), p.base.as_str())).collect();
    assert_eq!(names, vec![("a", "x"), ("b", "./y")]);
}

#[test]
fn compile_builds_manifest_and_source() {
    let rf = parse(EXAMPLE).unwrap();
    let c = rune_compiler::compile::compile(&rf, "sine", ".").unwrap();
    assert_eq!(c.manifest.package.as_ref().unwrap().name, "sine");
    assert_eq!(c.manifest.dependencies.len(), 6);
    assert_eq!(c.source, generate_source(&c.pipeline));
    let bad = parse("run nowhere").unwrap();
    assert!(matches!(
        rune_compiler::compile::compile(&bad, "x", ".").unwrap_err(),
        LowerError::DanglingReference { .. }
    ));
}

#[test]
fn types_and_parameters_are_read() {
    let rf = parse(
        "capability accel ACCEL; out f32[128, 3]; n 128\n\
         proc-block normalize hotg-ai/rune#proc_blocks/normalize; in f32[128, 3]; out _; labels [up, down]; mode fast\n\
         model sine ./sine.tflite; in f32; out f32[1]\n",
    )
    .unwrap();
    match &rf.instructions[0] {
        Instruction::Capability(c) => {
            match &c.output_type.kind {
                TypeKind::Buffer { element_type, dimensions } => {
                    assert_eq!(element_type.value, "f32");
                    assert_eq!(dimensions, &vec![128, 3]);
                },
                other => panic!("{:?}", other),
            }
            assert_eq!(c.parameters.len(), 1);
            assert_eq!(c.parameters[0].name.value, "n");
            assert!(matches!(&c.parameters[0].value,
                ArgumentValue::Literal(l) if matches!(l.kind, LiteralKind::Integer(128))));
        },
        other => panic!("{:?}", other),
    }
    match &rf.instructions[1] {
        Instruction::ProcBlock(p) => {
            assert!(matches!(p.input_type.kind, TypeKind::Buffer { .. }));
            assert!(matches!(p.output_type.kind, TypeKind::Inferred));
            assert_eq!(p.params.len(), 2);
            assert!(matches!(&p.params[0].value,
                ArgumentValue::List(v) if v == &vec!["up".to_string(), "down".to_string()]));
            assert!(matches!(&p.params[1].value,
                ArgumentValue::Literal(l) if matches!(&l.kind, LiteralKind::String(s) if s == "fast")));
        },
        other => panic!("{:?}", other),
    }
    match &rf.instructions[2] {
        Instruction::Model(m) => {
            assert!(matches!(&m.input_type.kind, TypeKind::Named(id) if id.value == "f32"));
            assert!(matches!(&m.output_type.kind, TypeKind::Buffer { dimensions, .. } if dimensions == &vec![1]));
        },
        other => panic!("{:?}", other),
    }
}

#[test]
fn bad_options_are_syntax_errors() {
    for bad in [
        "capability a K; in f32",
        "model m f; out x32[1]",
        "model m f; out f32[a]",
        "model m f; in two words",
        "model m f; flag",
        "model m f;",
        "out serial; n 1",
        "run a; n 1",
    ] {
        assert_eq!(parse(bad).unwrap_err().text, bad);
    }
}

#[test]
fn parameters_reach_the_call_site() {
    let rf = parse(
        "proc-block fft fft@1.0; size 512; window [hann, flat]; mode fast\ncapability mic SOUND; n -3\nrun mic, fft\n",
    )
    .unwrap();
    let src = generate_source(&process_instructions(&rf, ".").unwrap());
    assert!(src.contains(
        "    let data = stage_mic(data, &[(\"n\", \"-3\")]);\n    let data = stage_fft(data, &[(\"size\", \"512\"), (\"window\", \"[hann, flat]\"), (\"mode\", \"fast\")]);\n"
    ));
}

#[test]
fn models_are_embedded_before_the_entry_points() {
    let src = generate_source(&process_instructions(&parse(EXAMPLE).unwrap(), ".").unwrap());
    let load = src.find("static MODEL_sine: &[u8] = include_bytes!(\"./sine.tflite\");\n").unwrap();
    assert!(load < src.find("fn _manifest").unwrap());
    assert!(src.starts_with("#![no_std]\nextern crate alloc;\n\nstatic MODEL_sine"));
}
