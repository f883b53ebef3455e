use mirage::instructions::{check_instructions_wf, Instruction};
use mirage::result::MiError;
use mirage::runtime::{ArithOp, CmpOp, HostReply, HostRequest, MirageRuntime, StepOutcome};
use mirage::value::MiValue;

struct RunOutput {
    result: Option<MiValue>,
    error: Option<MiError>,
    stdout: String,
    stderr: String,
}

fn host_reply(q: HostRequest, stdout: &mut String, stderr: &mut String, lines: &mut Vec<String>) -> HostReply {
    match q {
        HostRequest::WriteStdout(s) => {
            stdout.push_str(&s);
            HostReply::WriteDone
        }
        HostRequest::WriteStderr(s) => {
            stderr.push_str(&s);
            HostReply::WriteDone
        }
        HostRequest::FlushStdout => HostReply::Flushed,
        HostRequest::FlushStderr => HostReply::Flushed,
        HostRequest::ReadLine => {
            if lines.is_empty() {
                HostReply::Line(String::new())
            } else {
                HostReply::Line(lines.remove(0))
            }
        }
        HostRequest::FloatArith(op, a, b) => {
            let x = f64::from_bits(a);
            let y = f64::from_bits(b);
            let r = match op {
                ArithOp::Add => x + y,
                ArithOp::Sub => x - y,
                ArithOp::Mul => x * y,
                ArithOp::Div => x / y,
                ArithOp::Rem => x % y,
                ArithOp::Pow => x.powf(y),
            };
            HostReply::Bits(r.to_bits())
        }
        HostRequest::FloatCompare(op, a, b) => {
            let x = f64::from_bits(a);
            let y = f64::from_bits(b);
            let r = match op {
                CmpOp::Lt => x < y,
                CmpOp::Le => x <= y,
                CmpOp::Gt => x > y,
                CmpOp::Ge => x >= y,
            };
            HostReply::Truth(r)
        }
        HostRequest::FormatFloat(bits) => HostReply::Text(format!("{}", f64::from_bits(bits))),
    }
}

fn drive_capped(program: Vec<Instruction>, stdin_lines: Vec<String>, cap: usize) -> RunOutput {
    assert!(check_instructions_wf(&program));
    assert!(program.len() < 0x7fff_ffff);
    let mut rt = MirageRuntime::new(program);
    rt.setup();
    let mut stdout = String::new();
    let mut stderr = String::new();
    let mut lines = stdin_lines;
    let mut reply: Option<HostReply> = None;
    for _ in 0..cap {
        let outcome = match reply.take() {
            Some(r) => rt.resume(r),
            None => rt.step(),
        };
        match outcome {
            StepOutcome::Ran => {}
            StepOutcome::AwaitingHost => panic!("host protocol out of step"),
            StepOutcome::Finished(v) => {
                return RunOutput { result: v, error: None, stdout, stderr };
            }
            StepOutcome::Failed(e) => {
                return RunOutput { result: None, error: Some(e), stdout, stderr };
            }
            StepOutcome::Request(q) => {
                reply = Some(host_reply(q, &mut stdout, &mut stderr, &mut lines));
            }
        }
    }
    RunOutput { result: None, error: None, stdout, stderr }
}

fn drive(program: Vec<Instruction>, stdin_lines: Vec<String>) -> RunOutput {
    drive_capped(program, stdin_lines, 200_000)
}

fn assemble(source: &str) -> Vec<Instruction> {
    let tokens = mirage::tokens::tokenize(source, "test.mir").expect("tokenize");
    let mut parser = mirage::parser::Parser::new(tokens);
    parser.parse().expect("parse")
}

#[test]
fn empty_program_finishes_with_no_result() {
    let out = drive(vec![], vec![]);
    assert!(out.error.is_none());
    assert!(out.result.is_none());
    assert_eq!(out.stdout, "");
}

#[test]
fn hello_world_writes_stdout() {
    let program = assemble(
        "move r0 string \"Hello, world!\\n\"\nstdoutwrite r0\nstdoutflush\nreturn\n",
    );
    let out = drive(program, vec![]);
    assert!(out.error.is_none());
    assert_eq!(out.stdout, "Hello, world!\n");
}

#[test]
fn integer_add_writes_sum() {
    let program = assemble(
        "move r0 int 2\nmove r1 int 3\nadd r0 r1 r2\nstdoutwrite r2\nreturn\n",
    );
    let out = drive(program, vec![]);
    assert!(out.error.is_none());
    assert_eq!(out.stdout, "5");
}

#[test]
fn type_mismatch_aborts_with_invalid_type() {
    let mut program = assemble("move r0 int 1\n");
    program.push(Instruction::Move(1, MiValue::from_float_bits((2.0f64).to_bits())));
    program.push(Instruction::Add(0, 1, 2));
    let out = drive(program, vec![]);
    let err = out.error.expect("an error");
    assert_eq!(err.name, "InvalidType");
}

#[test]
fn unconditional_loop_emits_ones() {
    let program = assemble(
        "definelabel L\nmove r0 int 1\nstdoutwrite r0\njumpunc L\n",
    );
    let out = drive_capped(program, vec![], 2_000);
    assert!(out.error.is_none());
    assert!(out.result.is_none());
    assert!(out.stdout.len() >= 3);
    assert!(out.stdout.chars().all(|c| c == '1'));
}

#[test]
fn call_with_one_argument_binds_parameter() {
    let program = assemble(
        "definefnlabel id 2 x int\nmoveargument \"x\" r0\nreturn\nendfunction\nmove r0 int 7\nmoveasargument r0\ncall id\n",
    );
    let out = drive(program, vec![]);
    assert!(out.error.is_none(), "error: {:?}", out.error);
    assert_eq!(out.stdout, "");
}

#[test]
fn call_writes_argument_back_through_register() {
    let program = assemble(
        "definefnlabel id 2 x int\nmoveargument \"x\" r0\nstdoutwrite r0\nreturn\nendfunction\nmove r0 int 7\nmoveasargument r0\ncall id\nreturn\n",
    );
    let out = drive(program, vec![]);
    assert!(out.error.is_none(), "error: {:?}", out.error);
    assert_eq!(out.stdout, "7");
}

#[test]
fn debugged_write_quotes_strings() {
    let program = assemble("move r0 string \"hi\"\nstdoutwritedebugged r0\nreturn\n");
    let out = drive(program, vec![]);
    assert!(out.error.is_none());
    assert_eq!(out.stdout, "\"hi\"");
}

#[test]
fn stdin_echo_round_trips_line() {
    let program = assemble("bufferedstdinread r0\nstdoutwrite r0\n");
    let out = drive(program, vec![String::from("hello\n")]);
    assert!(out.error.is_none());
    assert_eq!(out.stdout, "hello\n");
}

#[test]
fn register_sixteen_at_runtime_is_invalid_register() {
    let program = vec![Instruction::Move(16, MiValue::from_i32(1))];
    let out = drive(program, vec![]);
    let err = out.error.expect("an error");
    assert_eq!(err.name, "InvalidRegister");
}

#[test]
fn deep_recursion_overflows_the_stack() {
    let program = assemble(
        "definefnlabel f 1 None\ncall f\nreturn\nendfunction\ncall f\n",
    );
    let out = drive_capped(program, vec![], 100_000);
    let err = out.error.expect("an error");
    assert_eq!(err.name, "StackOverflow");
}

#[test]
fn pow_with_negative_exponent_is_math_error() {
    let program = assemble(
        "move r0 int 2\nmove r1 int 0\nmove r2 int 3\nsub r1 r2 r3\npow r0 r3 r4\n",
    );
    let out = drive(program, vec![]);
    let err = out.error.expect("an error");
    assert_eq!(err.name, "MathError");
}

#[test]
fn division_by_zero_is_math_error() {
    let program = assemble("move r0 int 7\nmove r1 int 0\ndiv r0 r1 r2\n");
    let out = drive(program, vec![]);
    let err = out.error.expect("an error");
    assert_eq!(err.name, "MathError");
}

#[test]
fn eq_and_ne_disagree_on_every_tested_pair() {
    let program = assemble(
        "move r0 int 1\nmove r1 int 1\neq r0 r1 r2\nne r0 r1 r3\nstdoutwrite r2\nstdoutwrite r3\nmove r4 int 2\neq r0 r4 r5\nne r0 r4 r6\nstdoutwrite r5\nstdoutwrite r6\nreturn\n",
    );
    let out = drive(program, vec![]);
    assert!(out.error.is_none());
    assert_eq!(out.stdout, "truefalsefalsetrue");
}

#[test]
fn int_and_float_with_equal_magnitude_are_not_equal() {
    let mut program = vec![
        Instruction::Move(0, MiValue::from_i32(1)),
        Instruction::Move(1, MiValue::from_float_bits((1.0f64).to_bits())),
        Instruction::Eq(0, 1, 2),
        Instruction::StdoutWrite(2),
    ];
    program.push(Instruction::Return);
    let out = drive(program, vec![]);
    assert!(out.error.is_none());
    assert_eq!(out.stdout, "false");
}

#[test]
fn float_addition_preserves_float_type() {
    let program = vec![
        Instruction::Move(0, MiValue::from_float_bits((1.5f64).to_bits())),
        Instruction::Move(1, MiValue::from_float_bits((2.25f64).to_bits())),
        Instruction::Add(0, 1, 2),
        Instruction::StdoutWrite(2),
        Instruction::Return,
    ];
    let out = drive(program, vec![]);
    assert!(out.error.is_none(), "error: {:?}", out.error);
    assert_eq!(out.stdout, "3.75");
}

#[test]
fn float_comparison_produces_boolean() {
    let program = vec![
        Instruction::Move(0, MiValue::from_float_bits((1.5f64).to_bits())),
        Instruction::Move(1, MiValue::from_float_bits((2.25f64).to_bits())),
        Instruction::Lt(0, 1, 2),
        Instruction::StdoutWrite(2),
        Instruction::Return,
    ];
    let out = drive(program, vec![]);
    assert!(out.error.is_none());
    assert_eq!(out.stdout, "true");
}

#[test]
fn boolean_connectives_follow_truth_tables() {
    // Booleans are forged through comparisons: the scanner has no boolean
    // literal payload for `move`.
    let program = assemble(
        "move r8 int 1\nmove r9 int 2\neq r8 r8 r0\neq r8 r9 r1\nor r0 r1 r2\nand r0 r1 r3\nxor r0 r1 r4\nnot r0 r5\nstdoutwrite r2\nstdoutwrite r3\nstdoutwrite r4\nstdoutwrite r5\nreturn\n",
    );
    let out = drive(program, vec![]);
    assert!(out.error.is_none());
    assert_eq!(out.stdout, "truefalsetruefalse");
}

#[test]
fn return_from_outermost_frame_yields_register_fifteen() {
    let program = assemble("move r15 int 42\nreturn\n");
    let out = drive(program, vec![]);
    assert!(out.error.is_none());
    let v = out.result.expect("a result");
    assert_eq!(v.read_i32(), 42);
}

#[test]
fn local_variables_round_trip_through_the_frame() {
    let program = assemble(
        "move r0 int 9\nsetvariable r0 nine\nmovfromvariable nine r1\nstdoutwrite r1\nreturn\n",
    );
    let out = drive(program, vec![]);
    assert!(out.error.is_none());
    assert_eq!(out.stdout, "9");
}

#[test]
fn throwfrom_raises_the_given_error() {
    let program = assemble(
        "move r0 string \"MyError\"\nmove r1 string \"it broke\"\nthrowfrom r0 r1\n",
    );
    let out = drive(program, vec![]);
    let err = out.error.expect("an error");
    // The payload of a string value is its length prefix, then the text;
    // the lossy decode of the whole payload keeps the text at the end.
    assert!(err.name.ends_with("MyError"));
    assert!(err.message.ends_with("it broke"));
}

#[test]
fn conditional_jump_takes_only_true_branch() {
    // Control resumes two slots past the label: one for the label itself
    // and one for the loop's own advance, so a no-op pads the target.
    let program = assemble(
        "move r7 int 1\neq r7 r7 r0\njumpc r0 SKIP\nmove r1 int 1\nstdoutwrite r1\ndefinelabel SKIP\nendfunction\nmove r2 int 2\nstdoutwrite r2\nreturn\n",
    );
    let out = drive(program, vec![]);
    assert!(out.error.is_none());
    assert_eq!(out.stdout, "2");
}

#[test]
fn unset_register_read_throws() {
    let program = assemble("movebetween r3 r4\n");
    let out = drive(program, vec![]);
    let err = out.error.expect("an error");
    assert_eq!(err.name, "UnsetRegister");
}

#[test]
fn undefined_function_call_throws() {
    let program = assemble("call nothere\n");
    let out = drive(program, vec![]);
    let err = out.error.expect("an error");
    assert_eq!(err.name, "UndefinedFunction");
}

#[test]
fn missing_argument_throws_not_enough_arguments() {
    let program = assemble(
        "definefnlabel g 2 x None\nreturn\nendfunction\ncall g\n",
    );
    let out = drive(program, vec![]);
    let err = out.error.expect("an error");
    assert_eq!(err.name, "NotEnoughArguments");
}

#[test]
fn missing_argument_binding_throws_undefined_argument() {
    let program = assemble(
        "definefnlabel h 1 None\nmoveargument \"x\" r0\nreturn\nendfunction\ncall h\nreturn\n",
    );
    let out = drive(program, vec![]);
    let err = out.error.expect("an error");
    assert_eq!(err.name, "UndefinedArgument");
}

#[test]
fn missing_local_throws_undefined_variable() {
    let program = assemble("movfromvariable ghostvar r0\n");
    let out = drive(program, vec![]);
    let err = out.error.expect("an error");
    assert_eq!(err.name, "UndefinedVariable");
}

#[test]
fn failed_write_throws_io_error() {
    let program = assemble("move r0 int 1\nstdoutwrite r0\nreturn\n");
    assert!(check_instructions_wf(&program));
    let mut rt = MirageRuntime::new(program);
    rt.setup();
    loop {
        match rt.step() {
            StepOutcome::Ran => {}
            StepOutcome::Request(HostRequest::WriteStdout(_)) => {
                match rt.resume(HostReply::WriteFailed(String::from("broken pipe"))) {
                    StepOutcome::Failed(e) => {
                        assert_eq!(e.name, "IOError");
                        assert!(e.message.contains("broken pipe"));
                        return;
                    }
                    other => panic!("unexpected outcome: {:?}", other),
                }
            }
            other => panic!("unexpected outcome: {:?}", other),
        }
    }
}

#[test]
fn missing_label_throws_unset_label() {
    let program = assemble("jumpunc nowhere\n");
    let out = drive(program, vec![]);
    let err = out.error.expect("an error");
    assert_eq!(err.name, "UnsetLabel");
}

#[test]
fn backtrace_coalesces_and_caps_at_eight_frames() {
    let program = assemble(
        "definefnlabel f 1 None\ncall f\nreturn\nendfunction\ncall f\n",
    );
    let out = drive_capped(program, vec![], 100_000);
    let err = out.error.expect("an error");
    let blocks = err.backtrace.matches("at f").count();
    assert!(blocks <= 8);
    assert!(err.backtrace.contains("times called"));
}
