//! The interpreter: a 16-register, frame-stacked virtual machine.
//!
//! The runtime is a state machine. `step` retires one instruction at a time;
//! work the core cannot do itself — writing and reading the standard
//! streams, and computing or formatting IEEE floats — is handed to the host
//! as a [`HostRequest`], whose answer comes back through [`resume`].
//!
//! [`resume`]: MirageRuntime::resume

use vstd::prelude::*;
use vstd::string::{StringExecFns, StrSliceExecFns};
use crate::value::{MiValue, MiType, ValueView, value_wf, spec_bool_payload, spec_int_of,
    spec_int_payload, spec_float_payload, ToStringDebugged};
use crate::registers::Registers;
use crate::stack::{CallStack, StackFrame, FrameView, frame_values_wf};
use crate::instructions::{Instruction, InstructionView};
use crate::result::MiError;
use crate::maps::{assoc_get, assoc_insert, assoc_view, spec_assoc_get};
use crate::host::bytes_to_string_lossy;
use crate::render::{spec_to_string, spec_to_string_debugged};
use crate::numfmt::u64_to_dec_string;
use vstd::wrapping::i32_specs;

verus! {

/// An arithmetic opcode family member.
#[derive(Clone, Copy, Debug, PartialEq, Eq, Structural)]
pub enum ArithOp {
    Add,
    Sub,
    Mul,
    Div,
    Rem,
    Pow,
}

/// A numeric comparison opcode family member.
#[derive(Clone, Copy, Debug, PartialEq, Eq, Structural)]
pub enum CmpOp {
    Lt,
    Le,
    Gt,
    Ge,
}

/// A boolean opcode family member.
#[derive(Clone, Copy, Debug, PartialEq, Eq, Structural)]
pub enum BoolOp {
    Or,
    Xor,
    And,
}

/// Work the interpreter asks its host to do: stream I/O, float arithmetic
/// and comparison on IEEE-754 bit patterns, and float formatting.
#[derive(Debug)]
pub enum HostRequest {
    WriteStdout(String),
    WriteStderr(String),
    FlushStdout,
    FlushStderr,
    ReadLine,
    FloatArith(ArithOp, u64, u64),
    FloatCompare(CmpOp, u64, u64),
    FormatFloat(u64),
}

/// The host's answer to the pending request.
#[derive(Debug)]
pub enum HostReply {
    WriteDone,
    WriteFailed(String),
    Flushed,
    Line(String),
    ReadFailed(String),
    Bits(u64),
    Truth(bool),
    Text(String),
}

/// What one step of the machine produced.
#[derive(Debug)]
pub enum StepOutcome {
    /// One instruction retired; step again.
    Ran,
    /// The host must answer this request through `resume`.
    Request(HostRequest),
    /// A request is already pending, or the reply did not fit it.
    AwaitingHost,
    /// The program ended; the result is the value of register 15, if any.
    Finished(Option<MiValue>),
    /// An error unwound past the outermost frame.
    Failed(MiError),
}

/// The continuation for a pending host request.
#[derive(Clone, Copy, Debug, PartialEq, Eq, Structural)]
pub enum Pending {
    /// Store the returned bits as a float value in this register.
    StoreFloat(usize),
    /// Store the returned truth as a boolean value in this register.
    StoreFlag(usize),
    /// The returned text is the rendering to write to stdout or stderr.
    WriteText(bool),
    /// A stream write is in flight; `true` means standard error.
    AwaitWrite(bool),
    /// A stream flush is in flight.
    AwaitFlush,
    /// A line read is in flight, destined for this register.
    AwaitLine(usize),
}

/// A function table entry: parameter names, declared return type, and the
/// index of the defining instruction.
#[derive(Debug)]
pub struct FnEntry {
    pub params: Vec<String>,
    pub returns: MiType,
    pub pos: i32,
}

/// The mathematical shape of a function table entry.
#[verifier::ext_equal]
pub ghost struct FnEntryView {
    pub params: Seq<Seq<char>>,
    pub returns: MiType,
    pub pos: i32,
}

impl View for FnEntry {
    type V = FnEntryView;

    open spec fn view(&self) -> FnEntryView {
        FnEntryView { params: self.params.deep_view(), returns: self.returns, pos: self.pos }
    }
}

/// The mathematical shape of the whole machine.
#[verifier::ext_equal]
pub ghost struct RuntimeView {
    pub registers: Seq<Option<ValueView>>,
    pub stack: Seq<FrameView>,
    pub pc: int,
    pub instructions: Seq<InstructionView>,
    pub labels: Seq<(Seq<char>, i32)>,
    pub argument_stack: Seq<ValueView>,
    pub functions: Seq<(Seq<char>, FnEntryView)>,
    pub pending: Option<Pending>,
}

/// Represents the Mirage virtual machine.
#[derive(Debug)]
pub struct MirageRuntime {
    pub registers: Registers,
    stack: CallStack,
    program_counter: i32,
    instructions: Vec<Instruction>,
    labels: Vec<(String, i32)>,
    argument_stack: Vec<MiValue>,
    function_addr_table: Vec<(String, FnEntry)>,
    pending: Option<Pending>,
}

impl View for MirageRuntime {
    type V = RuntimeView;

    closed spec fn view(&self) -> RuntimeView {
        RuntimeView {
            registers: self.registers@,
            stack: self.stack@,
            pc: self.program_counter as int,
            instructions: self.instructions.deep_view(),
            labels: assoc_view(self.labels@),
            argument_stack: self.argument_stack.deep_view(),
            functions: assoc_view(self.function_addr_table@),
            pending: self.pending,
        }
    }
}

/// The register a view holds at an index, unset outside the file.
pub open spec fn reg_of(s: RuntimeView, i: usize) -> Option<ValueView> {
    if i < 16 {
        s.registers[i as int]
    } else {
        None
    }
}

/// The canonical boolean value.
pub open spec fn spec_bool_value(b: bool) -> ValueView {
    ValueView { bytes: spec_bool_payload(b), variant: MiType::Bool }
}

/// The canonical integer value.
pub open spec fn spec_int_value(n: i32) -> ValueView {
    ValueView { bytes: spec_int_payload(n), variant: MiType::Int }
}

/// The float value carrying a bit pattern.
pub open spec fn spec_float_value(bits: u64) -> ValueView {
    ValueView { bytes: spec_float_payload(bits), variant: MiType::Float }
}

/// Every set register holds a well-formed value.
pub open spec fn registers_wf(regs: Seq<Option<ValueView>>) -> bool {
    forall|i: int| 0 <= i < regs.len() ==> (#[trigger] regs[i] matches Some(v) ==> value_wf(v))
}

/// Every frame on the stack binds only well-formed values.
pub open spec fn stack_values_wf(frames: Seq<FrameView>) -> bool {
    forall|i: int| 0 <= i < frames.len() ==> frame_values_wf(#[trigger] frames[i])
}

/// A frame's stored addresses lie inside (or one past) the program.
pub open spec fn frame_addrs_ok(f: FrameView, len: int) -> bool {
    &&& f.error_handling_addr as int <= len
    &&& (f.return_addr matches Some(a) ==> a as int <= len)
}

/// A stored position lies inside the instruction sequence.
pub open spec fn pos_in_range(pos: i32, len: int) -> bool {
    0 <= pos as int && (pos as int) < len
}

/// Every pending argument is well formed.
pub open spec fn args_wf(vs: Seq<ValueView>) -> bool {
    forall|i: int| 0 <= i < vs.len() ==> value_wf(#[trigger] vs[i])
}

impl MirageRuntime {
    /// The machine's own invariant: the register file is intact, every
    /// value anywhere in the machine satisfies the payload-length
    /// invariant, the program counter stays in range, and every label or
    /// function table entry points into the instruction sequence.
    pub closed spec fn inv(&self) -> bool {
        &&& self.registers.wf()
        &&& self.registers@.len() == 16
        &&& registers_wf(self.registers@)
        &&& self.stack.wf()
        &&& stack_values_wf(self.stack@)
        &&& args_wf(self.argument_stack.deep_view())
        &&& crate::instructions::instrs_wf(self.instructions.deep_view())
        &&& forall|i: int|
            0 <= i < self.stack@.len() ==> frame_addrs_ok(
                #[trigger] self.stack@[i],
                self.instructions@.len() as int,
            )
        &&& self.instructions@.len() < 0x7fff_ffff
        &&& -1 <= self.program_counter as int <= self.instructions@.len()
        &&& forall|name: Seq<char>|
            (#[trigger] spec_assoc_get(assoc_view(self.labels@), name)) matches Some(p)
                ==> pos_in_range(p, self.instructions@.len() as int)
        &&& forall|name: Seq<char>|
            (#[trigger] spec_assoc_get(assoc_view(self.function_addr_table@), name)) matches Some(
            e,
        ) ==> pos_in_range(e.pos, self.instructions@.len() as int)
    }

    /// Creates a machine over an instruction sequence, with the outermost
    /// `Main` frame in place and every register unset.
    pub fn new(instructions: Vec<Instruction>) -> (r: MirageRuntime)
        requires
            instructions@.len() < 0x7fff_ffff,
            crate::instructions::instrs_wf(instructions.deep_view()),
        ensures
            r.inv(),
            r@.instructions == instructions.deep_view(),
            r@.pc == -1,
            r@.registers =~= Seq::new(16, |i: int| None::<ValueView>),
            r@.stack.len() == 1,
            r@.stack[0].name == "Main"@,
            r@.stack[0].return_addr is None,
            r@.argument_stack =~= Seq::<ValueView>::empty(),
            r@.labels =~= Seq::<(Seq<char>, i32)>::empty(),
            r@.functions =~= Seq::<(Seq<char>, FnEntryView)>::empty(),
            r@.pending is None,
    {
        let mut stack = CallStack::new();
        let main_args: Vec<(String, MiValue)> = Vec::new();
        proof {
            assert(assoc_view(main_args@) =~= Seq::<(Seq<char>, ValueView)>::empty());
        }
        let main_frame = StackFrame::new(String::from_str("Main"), main_args, None, false, 0);
        let pushed = stack.push_frame(main_frame);
        proof {
            assert(pushed is Ok);
        }
        let r = MirageRuntime {
            registers: Registers::new(),
            stack,
            program_counter: -1,
            instructions,
            labels: Vec::new(),
            argument_stack: Vec::new(),
            function_addr_table: Vec::new(),
            pending: None,
        };
        proof {
            assert(assoc_view(r.labels@) =~= Seq::<(Seq<char>, i32)>::empty());
            assert(assoc_view(r.function_addr_table@) =~= Seq::<(Seq<char>, FnEntryView)>::empty());
            assert(r.argument_stack.deep_view() =~= Seq::<ValueView>::empty());
            assert(frame_values_wf(r.stack@[0]));
        }
        r
    }

    /// Returns the current instruction, if the counter is inside the
    /// program.
    pub fn get_current(&self) -> (r: Option<Instruction>)
        ensures
            match r {
                Some(ins) => 0 <= self@.pc < self@.instructions.len() && ins@
                    == self@.instructions[self@.pc],
                None => !(0 <= self@.pc < self@.instructions.len()),
            },
    {
        if self.program_counter >= 0 && (self.program_counter as usize) < self.instructions.len() {
            Some(self.instructions[self.program_counter as usize].clone())
        } else {
            None
        }
    }
}

/// The label table an instruction sequence defines: the latest
/// `DefineLabel` with the name wins.
pub open spec fn spec_label_of(instrs: Seq<InstructionView>, name: Seq<char>) -> Option<int>
    decreases instrs.len(),
{
    if instrs.len() == 0 {
        None
    } else {
        match instrs.last() {
            InstructionView::DefineLabel(n) => if n == name {
                Some(instrs.len() - 1)
            } else {
                spec_label_of(instrs.drop_last(), name)
            },
            _ => spec_label_of(instrs.drop_last(), name),
        }
    }
}

/// The function table an instruction sequence defines: the latest
/// `DefineFnLabel` with the name wins.
pub open spec fn spec_function_of(instrs: Seq<InstructionView>, name: Seq<char>) -> Option<
    (Seq<Seq<char>>, MiType, int),
>
    decreases instrs.len(),
{
    if instrs.len() == 0 {
        None
    } else {
        match instrs.last() {
            InstructionView::DefineFnLabel(n, params, ret) => if n == name {
                Some((params, ret, instrs.len() - 1))
            } else {
                spec_function_of(instrs.drop_last(), name)
            },
            _ => spec_function_of(instrs.drop_last(), name),
        }
    }
}

impl MirageRuntime {
    /// Scans the program once and fills the label and function tables;
    /// a later definition of a name overwrites an earlier one.
    pub fn setup(&mut self)
        requires
            old(self).inv(),
            old(self)@.labels.len() == 0,
            old(self)@.functions.len() == 0,
        ensures
            final(self).inv(),
            final(self)@ == (RuntimeView {
                labels: final(self)@.labels,
                functions: final(self)@.functions,
                ..old(self)@
            }),
            forall|name: Seq<char>|
                #[trigger] spec_assoc_get(final(self)@.labels, name) == (
                match spec_label_of(final(self)@.instructions, name) {
                    Some(p) => Some(p as i32),
                    None => None,
                }),
            forall|name: Seq<char>|
                #[trigger] spec_assoc_get(final(self)@.functions, name) == (
                match spec_function_of(final(self)@.instructions, name) {
                    Some(e) => Some(FnEntryView { params: e.0, returns: e.1, pos: e.2 as i32 }),
                    None => None,
                }),
    {
        let ghost iv = self.instructions.deep_view();
        proof {
            assert(iv.take(0) =~= Seq::<InstructionView>::empty());
        }
        let n = self.instructions.len();
        let mut pos: usize = 0;
        while pos < n
            invariant
                n == self.instructions@.len(),
                iv == self.instructions.deep_view(),
                n < 0x7fff_ffff,
                0 <= pos <= n,
                old(self).inv(),
                self.registers == old(self).registers,
                self.stack == old(self).stack,
                self.program_counter == old(self).program_counter,
                self.instructions == old(self).instructions,
                self.argument_stack == old(self).argument_stack,
                self.pending == old(self).pending,

                forall|name: Seq<char>|
                    #[trigger] spec_assoc_get(assoc_view(self.labels@), name) == (
                    match spec_label_of(iv.take(pos as int), name) {
                        Some(p) => Some(p as i32),
                        None => None,
                    }),
                forall|name: Seq<char>|
                    #[trigger] spec_assoc_get(assoc_view(self.function_addr_table@), name) == (
                    match spec_function_of(iv.take(pos as int), name) {
                        Some(e) => Some(
                            FnEntryView { params: e.0, returns: e.1, pos: e.2 as i32 },
                        ),
                        None => None,
                    }),
            decreases n - pos,
        {
            let ghost prefix = iv.take(pos as int);
            let ghost prefix1 = iv.take(pos as int + 1);
            proof {
                assert(prefix1.drop_last() =~= prefix);
                assert(prefix1.last() == iv[pos as int]);
            }
            let ghost old_labels = assoc_view(self.labels@);
            let ghost old_functions = assoc_view(self.function_addr_table@);
            match &self.instructions[pos] {
                Instruction::DefineLabel(label) => {
                    let ghost lname = label@;
                    assoc_insert(&mut self.labels, label.clone(), pos as i32);
                    proof {
                        lemma_tables_step(iv, pos as int);
                        assert(iv[pos as int] == InstructionView::DefineLabel(lname));
                        assert forall|name: Seq<char>|
                            #[trigger] spec_assoc_get(assoc_view(self.labels@), name) == (
                            match spec_label_of(prefix1, name) {
                                Some(p) => Some(p as i32),
                                None => None,
                            }) by {
                            if name != lname {
                                assert(spec_assoc_get(assoc_view(self.labels@), name)
                                    == spec_assoc_get(old_labels, name));
                            }
                        }
                    }
                },
                Instruction::DefineFnLabel(name, params, ret) => {
                    let ghost fname = name@;
                    let entry = FnEntry {
                        params: crate::instructions::clone_strings(params),
                        returns: *ret,
                        pos: pos as i32,
                    };
                    assoc_insert(&mut self.function_addr_table, name.clone(), entry);
                    proof {
                        lemma_tables_step(iv, pos as int);
                        assert forall|nm: Seq<char>|
                            #[trigger] spec_assoc_get(
                                assoc_view(self.function_addr_table@),
                                nm,
                            ) == (match spec_function_of(prefix1, nm) {
                                Some(e) => Some(
                                    FnEntryView { params: e.0, returns: e.1, pos: e.2 as i32 },
                                ),
                                None => None,
                            }) by {
                            if nm != fname {
                                assert(spec_assoc_get(assoc_view(self.function_addr_table@), nm)
                                    == spec_assoc_get(old_functions, nm));
                            }
                        }
                    }
                },
                _ => {
                    proof {
                        lemma_tables_step(iv, pos as int);
                    }
                },
            }
            pos += 1;
        }
        proof {
            assert(iv.take(n as int) =~= iv);
            assert forall|name: Seq<char>| true implies ((#[trigger] spec_assoc_get(
                assoc_view(self.labels@),
                name,
            )) matches Some(p) ==> pos_in_range(p, self.instructions@.len() as int)) by {
                lemma_spec_label_of_range(iv, name);
            }
            assert forall|name: Seq<char>| true implies ((#[trigger] spec_assoc_get(
                assoc_view(self.function_addr_table@),
                name,
            )) matches Some(e) ==> pos_in_range(e.pos, self.instructions@.len() as int)) by {
                lemma_spec_function_of_range(iv, name);
            }
        }
    }
}

/// A label the table binds always points into the instruction sequence.
proof fn lemma_spec_label_of_range(instrs: Seq<InstructionView>, name: Seq<char>)
    ensures
        spec_label_of(instrs, name) matches Some(p) ==> 0 <= p < instrs.len(),
    decreases instrs.len(),
{
    if instrs.len() > 0 {
        lemma_spec_label_of_range(instrs.drop_last(), name);
    }
}

/// A function entry the table binds always points into the sequence.
proof fn lemma_spec_function_of_range(instrs: Seq<InstructionView>, name: Seq<char>)
    ensures
        spec_function_of(instrs, name) matches Some(e) ==> 0 <= e.2 < instrs.len(),
    decreases instrs.len(),
{
    if instrs.len() > 0 {
        lemma_spec_function_of_range(instrs.drop_last(), name);
    }
}

/// Extending the scanned prefix by one instruction changes a name's
/// binding exactly when that instruction defines the name.
proof fn lemma_tables_step(iv: Seq<InstructionView>, pos: int)
    requires
        0 <= pos < iv.len(),
    ensures
        forall|name: Seq<char>|
            #[trigger] spec_label_of(iv.take(pos + 1), name) == (
            match iv[pos] {
                InstructionView::DefineLabel(n) => if n == name {
                    Some(pos)
                } else {
                    spec_label_of(iv.take(pos), name)
                },
                _ => spec_label_of(iv.take(pos), name),
            }),
        forall|name: Seq<char>|
            #[trigger] spec_function_of(iv.take(pos + 1), name) == (
            match iv[pos] {
                InstructionView::DefineFnLabel(n, params, ret) => if n == name {
                    Some((params, ret, pos))
                } else {
                    spec_function_of(iv.take(pos), name)
                },
                _ => spec_function_of(iv.take(pos), name),
            }),
{
    assert(iv.take(pos + 1).drop_last() =~= iv.take(pos));
    assert(iv.take(pos + 1).last() == iv[pos]);
}


/// A handler address found by unwinding points into the program.
proof fn lemma_unwind_addr_ok(frames: Seq<FrameView>, len: int)
    requires
        forall|i: int| 0 <= i < frames.len() ==> frame_addrs_ok(#[trigger] frames[i], len),
    ensures
        spec_unwind(frames) matches Some(p) ==> p.0 as int <= len,
    decreases frames.len(),
{
    if frames.len() > 0 && !frames.last().handles_error {
        lemma_unwind_addr_ok(frames.drop_last(), len);
    }
}

/// Pops frames innermost-out until one handles the error; that frame's
/// handler address is the answer, and the handler frame itself is popped
/// too. Without a handler the whole stack unwinds.
pub open spec fn spec_unwind(frames: Seq<FrameView>) -> Option<(usize, Seq<FrameView>)>
    decreases frames.len(),
{
    if frames.len() == 0 {
        None
    } else if frames.last().handles_error {
        Some((frames.last().error_handling_addr, frames.drop_last()))
    } else {
        spec_unwind(frames.drop_last())
    }
}

impl MirageRuntime {
    /// A copy of one register's value, unset outside the file.
    fn reg_cloned(&self, i: usize) -> (r: Option<MiValue>)
        requires
            self.inv(),
        ensures
            match r {
                Some(v) => reg_of(self@, i) == Some(v@) && value_wf(v@),
                None => reg_of(self@, i) is None,
            },
    {
        proof {
            if i < 16 {
                assert(self.registers@[i as int] == reg_of(self@, i));
            }
        }
        match self.registers.get(i) {
            Some(v) => Some(v.clone()),
            None => None,
        }
    }

    /// Stores a well-formed value; only the register file changes.
    fn set_reg(&mut self, i: usize, v: MiValue) -> (r: Result<(), MiError>)
        requires
            old(self).inv(),
            value_wf(v@),
        ensures
            final(self).inv(),
            final(self)@ == (RuntimeView { registers: final(self)@.registers, ..old(self)@ }),
            r is Err <==> i >= 16,
            i < 16 ==> final(self)@.registers =~= old(self)@.registers.update(
                i as int,
                Some(v@),
            ),
            i >= 16 ==> final(self)@.registers == old(self)@.registers && r->Err_0@.name
                == "InvalidRegister"@,
    {
        let res = self.registers.set(i, v);
        proof {
            if i < 16 {
                assert forall|j: int|
                    0 <= j < self.registers@.len() implies ((#[trigger] self.registers@[j]) matches
                Some(v2) ==> value_wf(v2)) by {
                    if j != i as int {
                        assert(self.registers@[j] == old(self).registers@[j]);
                    }
                }
            }
        }
        res
    }

    /// Gets the stack backtrace: exactly the rendering `spec_backtrace`
    /// spells for the current frames.
    pub fn get_backtrace(&self) -> (r: String)
        requires
            self.inv(),
        ensures
            r@ == crate::stack::spec_backtrace(self@.stack),
    {
        self.stack.get_backtrace_string()
    }

    /// Unwinds the stack frames looking for an error handler.
    pub fn unwind_stack(&mut self, error: MiError) -> (r: Result<i32, MiError>)
        requires
            old(self).inv(),
        ensures
            final(self).inv(),
            final(self)@ == (RuntimeView { stack: final(self)@.stack, ..old(self)@ }),
            match spec_unwind(old(self)@.stack) {
                Some(p) => r matches Ok(a) && a as int == p.0 as int && final(self)@.stack == p.1,
                None => r matches Err(e) && e@ == error@ && final(self)@.stack
                    =~= Seq::<FrameView>::empty(),
            },
    {
        loop
            invariant
                self.inv(),
                self@ == (RuntimeView { stack: self@.stack, ..old(self)@ }),
                spec_unwind(self@.stack) == spec_unwind(old(self)@.stack),
            decreases self@.stack.len(),
        {
            match self.stack.pop_frame() {
                Some(frame) => {
                    if frame.handles_error {
                        proof {
                            assert(frame.error_handling_addr as int
                                <= self.instructions@.len() as int);
                        }
                        return Ok(frame.error_handling_addr as i32);
                    }
                },
                None => {
                    return Err(error);
                },
            }
        }
    }

    /// Throws an error: takes the backtrace, then unwinds.
    pub fn throw(&mut self, name: String, message: String) -> (r: Result<i32, MiError>)
        requires
            old(self).inv(),
        ensures
            final(self).inv(),
            final(self)@ == (RuntimeView { stack: final(self)@.stack, ..old(self)@ }),
            match spec_unwind(old(self)@.stack) {
                Some(p) => r matches Ok(a) && a as int == p.0 as int && final(self)@.stack == p.1,
                None => ({
                    &&& r matches Err(e) && e@.name == name@ && e@.message == message@
                        && e@.backtrace == crate::stack::spec_backtrace(old(self)@.stack)
                    &&& final(self)@.stack =~= Seq::<FrameView>::empty()
                }),
            },
    {
        let backtrace = self.get_backtrace();
        let error = MiError { name, message, backtrace };
        self.unwind_stack(error)
    }

    /// Throws and turns the result into a step outcome: execution resumes
    /// at a handler, or the machine fails with the error.
    fn throw_step(&mut self, name: &str, message: String) -> (r: StepOutcome)
        requires
            old(self).inv(),
        ensures
            final(self).inv(),
            final(self)@ == (RuntimeView {
                stack: final(self)@.stack,
                pc: final(self)@.pc,
                ..old(self)@
            }),
            match spec_unwind(old(self)@.stack) {
                Some(p) => r is Ran && final(self)@.pc == p.0 as i32 as int && final(self)@.stack
                    == p.1,
                None => ({
                    &&& r matches StepOutcome::Failed(e) && e@.name == name@ && e@.message == message@
                    &&& final(self)@.stack =~= Seq::<FrameView>::empty()
                    &&& final(self)@.pc == old(self)@.pc
                }),
            },
    {
        proof {
            lemma_unwind_addr_ok(self@.stack, self.instructions@.len() as int);
        }
        let owned = String::from_str(name);
        match self.throw(owned, message) {
            Ok(addr) => {
                self.program_counter = addr;
                StepOutcome::Ran
            },
            Err(e) => StepOutcome::Failed(e),
        }
    }
}


/// Every value the machine holds — in a register, bound in a frame, or
/// waiting on the argument stack — satisfies the payload-length invariant.
pub open spec fn values_wf_everywhere(s: RuntimeView) -> bool {
    registers_wf(s.registers) && stack_values_wf(s.stack) && args_wf(s.argument_stack)
}

/// The machine's invariant carries the payload-length invariant to every
/// value in every register, frame and pending argument; since every step
/// and resume preserves the invariant, this holds at every observable
/// point of a run.
pub proof fn lemma_inv_values_wf(rt: &MirageRuntime)
    requires
        rt.inv(),
    ensures
        values_wf_everywhere(rt@),
{
}

/// Truncating signed division, as the host language's `/` rounds.
pub open spec fn spec_trunc_div(a: int, b: int) -> int
    recommends
        b != 0,
{
    let q = vstd::math::abs(a) as int / vstd::math::abs(b) as int;
    if (a < 0) == (b < 0) {
        q
    } else {
        -q
    }
}

/// Truncating signed remainder: the sign follows the dividend.
pub open spec fn spec_trunc_rem(a: int, b: int) -> int
    recommends
        b != 0,
{
    let m = vstd::math::abs(a) as int % vstd::math::abs(b) as int;
    if a < 0 {
        -m
    } else {
        m
    }
}

/// Wrapping integer exponentiation: repeated wrapping multiplication.
pub open spec fn spec_wrap_pow(base: i32, e: nat) -> i32
    decreases e,
{
    if e == 0 {
        1i32
    } else {
        i32_specs::wrapping_mul(spec_wrap_pow(base, (e - 1) as nat), base)
    }
}

/// What integer arithmetic produces: a wrapped result, or nothing where the
/// operation has no defined value (division or remainder by zero or at the
/// wrap corner, and a negative exponent), which the machine reports as a
/// `MathError`.
pub open spec fn spec_int_arith(op: ArithOp, a: i32, b: i32) -> Option<i32> {
    match op {
        ArithOp::Add => Some(i32_specs::wrapping_add(a, b)),
        ArithOp::Sub => Some(i32_specs::wrapping_sub(a, b)),
        ArithOp::Mul => Some(i32_specs::wrapping_mul(a, b)),
        ArithOp::Div => if b == 0 || (a == i32::MIN && b == -1i32) {
            None
        } else {
            Some(spec_trunc_div(a as int, b as int) as i32)
        },
        ArithOp::Rem => if b == 0 || (a == i32::MIN && b == -1i32) {
            None
        } else {
            Some(spec_trunc_rem(a as int, b as int) as i32)
        },
        ArithOp::Pow => if b < 0 {
            None
        } else {
            Some(spec_wrap_pow(a, b as nat))
        },
    }
}

/// What an integer comparison produces.
pub open spec fn spec_int_cmp(op: CmpOp, a: i32, b: i32) -> bool {
    match op {
        CmpOp::Lt => a < b,
        CmpOp::Le => a <= b,
        CmpOp::Gt => a > b,
        CmpOp::Ge => a >= b,
    }
}

/// What a boolean connective produces from the operands' truth.
pub open spec fn spec_bool_op(op: BoolOp, a: bool, b: bool) -> bool {
    match op {
        BoolOp::Or => a || b,
        BoolOp::Xor => a != b,
        BoolOp::And => a && b,
    }
}

/// The truth a boolean payload carries: any non-zero first byte.
pub open spec fn spec_truthy(v: ValueView) -> bool
    recommends
        v.bytes.len() >= 1,
{
    v.bytes[0] != 0
}

/// A successful call pushed one frame that returns to the instruction
/// after the call.
pub open spec fn call_links_return(pre: RuntimeView, post: RuntimeView) -> bool {
    &&& post.stack.len() == pre.stack.len() + 1
    &&& post.stack.last().return_addr == Some((pre.pc + 1) as usize)
}

/// A return popped the top frame and resumed at its return address.
pub open spec fn return_transition(pre: RuntimeView, post: RuntimeView) -> bool {
    &&& pre.stack.len() > 0
    &&& pre.stack.last().return_addr matches Some(a) && post.pc == a as int
    &&& post.stack == pre.stack.drop_last()
}

/// A `Call` followed directly by a `Return`, with no errors between them,
/// restores the program counter to the instruction after the `Call`.
pub proof fn lemma_call_return_restores_pc(s0: RuntimeView, s1: RuntimeView, s2: RuntimeView)
    requires
        call_links_return(s0, s1),
        return_transition(s1, s2),
        -1 <= s0.pc,
        s0.pc + 1 <= usize::MAX,
    ensures
        s2.pc == s0.pc + 1,
{
}

/// `Eq` and `Ne` agree: on every pair of values, one writes the negation
/// of the other.
pub proof fn lemma_eq_ne_agree(x: ValueView, y: ValueView)
    ensures
        spec_bool_value(x == y) == spec_bool_value(!(x != y)),
        spec_truthy(spec_bool_value(x == y)) == !spec_truthy(spec_bool_value(x != y)),
{
}

/// Computes the magnitude of a signed number.
fn i32_mag(a: i32) -> (r: u32)
    ensures
        r == vstd::math::abs(a as int),
{
    if a < 0 {
        let wide: i64 = a as i64;
        (-wide) as u32
    } else {
        a as u32
    }
}

/// Truncating division on machine integers.
fn i32_trunc_div(a: i32, b: i32) -> (r: i32)
    requires
        b != 0,
        !(a == i32::MIN && b == -1i32),
    ensures
        r as int == spec_trunc_div(a as int, b as int),
{
    let ma = i32_mag(a);
    let mb = i32_mag(b);
    let q: u32 = ma / mb;
    proof {
        assert(ma / mb <= ma) by (nonlinear_arith)
            requires mb >= 1
        ;
    }
    if (a < 0) == (b < 0) {
        proof {
            if a == i32::MIN {
                assert(b < 0 && b != -1i32);
                assert(mb >= 2);
                assert(ma / mb <= ma / 2) by (nonlinear_arith)
                    requires mb >= 2 && ma >= 0
                ;
                assert(q <= 0x4000_0000);
            }
        }
        q as i32
    } else {
        let wide: i64 = q as i64;
        (-wide) as i32
    }
}

/// Truncating remainder on machine integers.
fn i32_trunc_rem(a: i32, b: i32) -> (r: i32)
    requires
        b != 0,
        !(a == i32::MIN && b == -1i32),
    ensures
        r as int == spec_trunc_rem(a as int, b as int),
{
    let ma = i32_mag(a);
    let mb = i32_mag(b);
    let m: u32 = ma % mb;
    proof {
        assert(ma % mb < mb) by (nonlinear_arith)
            requires mb >= 1
        ;
    }
    if a < 0 {
        let wide: i64 = m as i64;
        (-wide) as i32
    } else {
        m as i32
    }
}

/// Wrapping exponentiation by repeated multiplication.
fn i32_wrap_pow(base: i32, e: u32) -> (r: i32)
    ensures
        r == spec_wrap_pow(base, e as nat),
{
    let mut acc: i32 = 1;
    let mut k: u32 = 0;
    while k < e
        invariant
            0 <= k <= e,
            acc == spec_wrap_pow(base, k as nat),
        decreases e - k,
    {
        acc = acc.wrapping_mul(base);
        k = k + 1;
    }
    acc
}


/// What storing a literal does: the destination register takes the value,
/// and an index outside the file fails the machine with `InvalidRegister`.
pub open spec fn step_move(pre: RuntimeView, post: RuntimeView, r: StepOutcome, reg: usize, value: ValueView) -> bool {
    &&& post.pending is None
    &&& !(r is Request)
    &&& reg < 16 ==> r is Ran && post == (RuntimeView {
        registers: pre.registers.update(reg as int, Some(value)),
        ..pre
    })
    &&& reg >= 16 ==> ({
        &&& r matches StepOutcome::Failed(e) && e@.name == "InvalidRegister"@
        &&& post == pre
    })
}

/// What a register-to-register copy does; an unset source throws.
pub open spec fn step_move_between(pre: RuntimeView, post: RuntimeView, r: StepOutcome, src: usize, dst: usize) -> bool {
    &&& post.pending is None
    &&& !(r is Request)
    &&& (reg_of(pre, src) is Some && dst < 16) ==> ({
        &&& r is Ran
        &&& post == (RuntimeView {
            registers: pre.registers.update(dst as int, Some(reg_of(pre, src)->Some_0)),
            ..pre
        })
    })
    &&& reg_of(pre, src) is None ==> unwound(pre, post, r, "UnsetRegister"@)
}

/// What binding an argument into a register does; an unbound name throws.
pub open spec fn step_move_argument(pre: RuntimeView, post: RuntimeView, r: StepOutcome, arg: Seq<char>, reg: usize) -> bool {
    &&& post.pending is None
    &&& !(r is Request)
    &&& (pre.stack.len() > 0 && spec_assoc_get(pre.stack.last().args, arg) is Some && reg < 16)
        ==> ({
        &&& r is Ran
        &&& post == (RuntimeView {
            registers: pre.registers.update(
                reg as int,
                Some(spec_assoc_get(pre.stack.last().args, arg)->Some_0),
            ),
            ..pre
        })
    })
    &&& (pre.stack.len() > 0 && spec_assoc_get(pre.stack.last().args, arg) is None) ==> unwound(
        pre,
        post,
        r,
        "UndefinedArgument"@,
    )
}

/// What pushing a register onto the argument stack does.
pub open spec fn step_move_as_argument(pre: RuntimeView, post: RuntimeView, r: StepOutcome, reg: usize) -> bool {
    &&& post.pending is None
    &&& !(r is Request)
    &&& reg_of(pre, reg) is Some ==> ({
        &&& r is Ran
        &&& post == (RuntimeView {
            argument_stack: pre.argument_stack.push(reg_of(pre, reg)->Some_0),
            ..pre
        })
    })
    &&& reg_of(pre, reg) is None ==> unwound(pre, post, r, "UnsetRegister"@)
}

/// What arithmetic does: two integers produce the wrapped result or a
/// `MathError`; two floats go to the host for bits; mixed numeric types
/// throw `InvalidType`.
pub open spec fn step_arith(pre: RuntimeView, post: RuntimeView, r: StepOutcome, op: ArithOp, r1: usize, r2: usize, dst: usize) -> bool {
    &&& (r is Request <==> post.pending is Some)
    &&& ({
        let a = reg_of(pre, r1);
        let b = reg_of(pre, r2);
        let x = a->Some_0;
        let y = b->Some_0;
        &&& (a is Some && b is Some && x.variant is Int && y.variant is Int) ==> (
        match spec_int_arith(op, spec_int_of(x.bytes), spec_int_of(y.bytes)) {
            Some(n) => dst < 16 ==> r is Ran && post == (RuntimeView {
                registers: pre.registers.update(dst as int, Some(spec_int_value(n))),
                ..pre
            }),
            None => unwound(pre, post, r, "MathError"@),
        })
        &&& (a is Some && b is Some && x.variant is Float && y.variant is Float) ==> ({
            &&& r matches StepOutcome::Request(q) && (q matches HostRequest::FloatArith(
                o2,
                x2,
                y2,
            ) && o2 == op && x2 == crate::value::spec_float_bits_of(x.bytes) && y2
                == crate::value::spec_float_bits_of(y.bytes))
            &&& post == (RuntimeView { pending: Some(Pending::StoreFloat(dst)), ..pre })
        })
        &&& (a is Some && b is Some && x.variant.is_numeric_spec() && y.variant.is_numeric_spec()
            && x.variant != y.variant) ==> unwound(pre, post, r, "InvalidType"@)
    })
}

/// What a boolean connective does: both operands must be booleans; the
/// canonical truth of the connective lands in the destination.
pub open spec fn step_bool(pre: RuntimeView, post: RuntimeView, r: StepOutcome, op: BoolOp, r1: usize, r2: usize, dst: usize) -> bool {
    &&& post.pending is None
    &&& !(r is Request)
    &&& ({
        let a = reg_of(pre, r1);
        let b = reg_of(pre, r2);
        let x = a->Some_0;
        let y = b->Some_0;
        &&& (a is Some && b is Some && x.variant is Bool && y.variant is Bool && dst < 16) ==> r
            is Ran && post == (RuntimeView {
            registers: pre.registers.update(
                dst as int,
                Some(spec_bool_value(spec_bool_op(op, spec_truthy(x), spec_truthy(y)))),
            ),
            ..pre
        })
        &&& (a is Some && !(x.variant is Bool)) ==> unwound(pre, post, r, "InvalidType"@)
    })
}

/// What logical NOT does.
pub open spec fn step_not(pre: RuntimeView, post: RuntimeView, r: StepOutcome, src: usize, dst: usize) -> bool {
    &&& post.pending is None
    &&& !(r is Request)
    &&& ({
        let a = reg_of(pre, src);
        let x = a->Some_0;
        &&& (a is Some && x.variant is Bool && dst < 16) ==> r is Ran && post == (RuntimeView {
            registers: pre.registers.update(dst as int, Some(spec_bool_value(!spec_truthy(x)))),
            ..pre
        })
        &&& a is None ==> unwound(pre, post, r, "UnsetRegister"@)
        &&& (a is Some && !(x.variant is Bool)) ==> unwound(pre, post, r, "InvalidType"@)
    })
}

/// What a numeric comparison does: integers compare in the core, floats go
/// to the host for their truth.
pub open spec fn step_cmp(pre: RuntimeView, post: RuntimeView, r: StepOutcome, op: CmpOp, r1: usize, r2: usize, dst: usize) -> bool {
    &&& (r is Request <==> post.pending is Some)
    &&& ({
        let a = reg_of(pre, r1);
        let b = reg_of(pre, r2);
        let x = a->Some_0;
        let y = b->Some_0;
        &&& (a is Some && b is Some && x.variant is Int && y.variant is Int && dst < 16) ==> r
            is Ran && post == (RuntimeView {
            registers: pre.registers.update(
                dst as int,
                Some(spec_bool_value(spec_int_cmp(op, spec_int_of(x.bytes), spec_int_of(y.bytes)))),
            ),
            ..pre
        })
        &&& (a is Some && b is Some && x.variant is Float && y.variant is Float) ==> ({
            &&& r matches StepOutcome::Request(q) && (q matches HostRequest::FloatCompare(
                o2,
                x2,
                y2,
            ) && o2 == op && x2 == crate::value::spec_float_bits_of(x.bytes) && y2
                == crate::value::spec_float_bits_of(y.bytes))
            &&& post == (RuntimeView { pending: Some(Pending::StoreFlag(dst)), ..pre })
        })
    })
}

/// What structural equality and inequality do: the destination takes the
/// canonical boolean of the comparison, one the negation of the other.
pub open spec fn step_eq(pre: RuntimeView, post: RuntimeView, r: StepOutcome, r1: usize, r2: usize, dst: usize, negate: bool) -> bool {
    &&& post.pending is None
    &&& !(r is Request)
    &&& ({
        let a = reg_of(pre, r1);
        let b = reg_of(pre, r2);
        &&& (a is Some && b is Some && dst < 16) ==> r is Ran && post == (RuntimeView {
            registers: pre.registers.update(
                dst as int,
                Some(
                    spec_bool_value(
                        if negate {
                            a->Some_0 != b->Some_0
                        } else {
                            a->Some_0 == b->Some_0
                        },
                    ),
                ),
            ),
            ..pre
        })
        &&& (a is None || b is None) ==> unwound(pre, post, r, "UnsetRegister"@)
    })
}

/// What `Return` does: resumes at the frame's return address, or finishes
/// the program with register 15 when the outermost frame returns.
pub open spec fn step_return(pre: RuntimeView, post: RuntimeView, r: StepOutcome) -> bool {
    &&& post.pending is None
    &&& !(r is Request)
    &&& (pre.stack.len() > 0 && pre.stack.last().return_addr is Some) ==> ({
        &&& r is Ran
        &&& return_transition(pre, post)
        &&& post == (RuntimeView { stack: post.stack, pc: post.pc, ..pre })
    })
    &&& (pre.stack.len() > 0 && pre.stack.last().return_addr is None) ==> ({
        &&& r matches StepOutcome::Finished(v) && (match v {
            Some(x) => reg_of(pre, 15) == Some(x@),
            None => reg_of(pre, 15) is None,
        })
        &&& post.stack == pre.stack.drop_last()
    })
}

/// What binding a local variable does; an unset register throws.
pub open spec fn step_set_variable(pre: RuntimeView, post: RuntimeView, r: StepOutcome, reg: usize, name: Seq<char>) -> bool {
    &&& post.pending is None
    &&& !(r is Request)
    &&& (pre.stack.len() > 0 && reg_of(pre, reg) is Some) ==> ({
        &&& r is Ran
        &&& post.stack.len() == pre.stack.len()
        &&& spec_assoc_get(post.stack.last().locals, name) == Some(reg_of(pre, reg)->Some_0)
        &&& post == (RuntimeView { stack: post.stack, ..pre })
    })
    &&& (pre.stack.len() > 0 && reg_of(pre, reg) is None) ==> unwound(
        pre,
        post,
        r,
        "UnsetRegister"@,
    )
}

/// What reading a local variable into a register does; a missing local
/// throws.
pub open spec fn step_mov_from_variable(pre: RuntimeView, post: RuntimeView, r: StepOutcome, name: Seq<char>, reg: usize) -> bool {
    &&& post.pending is None
    &&& !(r is Request)
    &&& (pre.stack.len() > 0 && spec_assoc_get(pre.stack.last().locals, name) is Some && reg < 16)
        ==> ({
        &&& r is Ran
        &&& post == (RuntimeView {
            registers: pre.registers.update(
                reg as int,
                Some(spec_assoc_get(pre.stack.last().locals, name)->Some_0),
            ),
            ..pre
        })
    })
    &&& (pre.stack.len() > 0 && spec_assoc_get(pre.stack.last().locals, name) is None) ==> unwound(
        pre,
        post,
        r,
        "UndefinedVariable"@,
    )
}

/// What `ThrowFrom` does: throws an error whose name is the lossy decode
/// of the reason register's payload; unset registers throw instead.
pub open spec fn step_throw_from(pre: RuntimeView, post: RuntimeView, r: StepOutcome, reason_reg: usize, msg_reg: usize) -> bool {
    &&& post.pending is None
    &&& !(r is Request)
    &&& ({
        let a = reg_of(pre, reason_reg);
        let b = reg_of(pre, msg_reg);
        &&& (a is Some && b is Some) ==> unwound(
            pre,
            post,
            r,
            crate::host::lossy_chars_of(a->Some_0.bytes),
        )
        &&& a is None ==> unwound(pre, post, r, "UnsetRegister"@)
        &&& (a is Some && b is None) ==> unwound(pre, post, r, "UnsetRegister"@)
    })
}

/// What an unconditional jump does: the counter lands past the label.
pub open spec fn step_jump(pre: RuntimeView, post: RuntimeView, r: StepOutcome, name: Seq<char>) -> bool {
    &&& post.pending is None
    &&& !(r is Request)
    &&& spec_assoc_get(pre.labels, name) is Some ==> ({
        &&& r is Ran
        &&& post == (RuntimeView {
            pc: spec_assoc_get(pre.labels, name)->Some_0 as int + 1,
            ..pre
        })
    })
    &&& spec_assoc_get(pre.labels, name) is None ==> unwound(pre, post, r, "UnsetLabel"@)
}

/// What a conditional jump does: taken exactly when the register's first
/// byte is one; an empty payload falls through.
pub open spec fn step_jump_cond(pre: RuntimeView, post: RuntimeView, r: StepOutcome, reg: usize, name: Seq<char>) -> bool {
    &&& post.pending is None
    &&& !(r is Request)
    &&& ({
        let v = reg_of(pre, reg);
        let x = v->Some_0;
        &&& (v is Some && x.bytes.len() > 0 && x.bytes[0] == 1u8 && spec_assoc_get(
            pre.labels,
            name,
        ) is Some) ==> ({
            &&& r is Ran
            &&& post == (RuntimeView {
                pc: spec_assoc_get(pre.labels, name)->Some_0 as int + 1,
                ..pre
            })
        })
        &&& (v is Some && x.bytes.len() > 0 && x.bytes[0] == 1u8 && spec_assoc_get(
            pre.labels,
            name,
        ) is None) ==> unwound(pre, post, r, "UnsetLabel"@)
        &&& (v is Some && !(x.bytes.len() > 0 && x.bytes[0] == 1u8)) ==> ({
            &&& r is Ran
            &&& post == pre
        })
        &&& v is None ==> unwound(pre, post, r, "UnsetRegister"@)
    })
}

/// What a call does: binds the declared parameters from the argument stack
/// — the last value pushed binds the last parameter — pushes the frame,
/// and continues at the function's position; an unknown name, a short
/// argument stack, or a full call stack throws.
pub open spec fn step_call(pre: RuntimeView, post: RuntimeView, r: StepOutcome, name: Seq<char>) -> bool {
    &&& post.pending is None
    &&& !(r is Request)
    &&& ({
        let entry = spec_assoc_get(pre.functions, name);
        let e = entry->Some_0;
        let n = e.params.len() as int;
        &&& (entry is Some && pre.argument_stack.len() >= n && pre.stack.len() + 1 < 4000) ==> ({
            &&& r is Ran
            &&& call_links_return(pre, post)
            &&& post.pc == e.pos as int
            &&& post.stack.last().name == name
            &&& post.stack.last().locals =~= Seq::<(Seq<char>, ValueView)>::empty()
            &&& post.argument_stack == pre.argument_stack.take(pre.argument_stack.len() - n)
            &&& forall|i: int|
                0 <= i < n && (forall|j: int| i < j < n ==> e.params[j] != e.params[i])
                    ==> spec_assoc_get(post.stack.last().args, #[trigger] e.params[i]) == Some(
                    pre.argument_stack[pre.argument_stack.len() - n + i],
                )
        })
        &&& entry is None ==> unwound(pre, post, r, "UndefinedFunction"@)
        &&& (entry is Some && pre.argument_stack.len() < n) ==> unwound(
            pre,
            post,
            r,
            "NotEnoughArguments"@,
        )
        &&& (entry is Some && pre.argument_stack.len() >= n && pre.stack.len() + 1 >= 4000
            && spec_unwind(pre.stack) is None) ==> (r matches StepOutcome::Failed(e2) && e2@.name
            == "StackOverflow"@)
    })
}

/// What a function definition does during straight-line execution: the
/// counter skips the body; nothing else changes.
pub open spec fn step_skip_fn_body(pre: RuntimeView, post: RuntimeView, r: StepOutcome) -> bool {
    &&& post.pending is None
    &&& !(r is Request)
    &&& r is Ran
    &&& post == (RuntimeView { pc: post.pc, ..pre })
}

/// What a write instruction does: a float is handed out for formatting
/// first; anything else is rendered in the core and handed out for the
/// write, the text pinned to the rendering specs.
pub open spec fn step_write(pre: RuntimeView, post: RuntimeView, r: StepOutcome, reg: usize, stderr: bool, debugged: bool) -> bool {
    &&& (r is Request <==> post.pending is Some)
    &&& ({
        let v = reg_of(pre, reg);
        let x = v->Some_0;
        &&& (v is Some && x.variant is Float) ==> ({
            &&& r matches StepOutcome::Request(q) && (q matches HostRequest::FormatFloat(bits)
                && bits == crate::value::spec_float_bits_of(x.bytes))
            &&& post == (RuntimeView { pending: Some(Pending::WriteText(stderr)), ..pre })
        })
        &&& (v is Some && !(x.variant is Float) && !debugged) ==> ({
            &&& r matches StepOutcome::Request(q) && (if stderr {
                q matches HostRequest::WriteStderr(t) && t@ == spec_to_string(x)
            } else {
                q matches HostRequest::WriteStdout(t) && t@ == spec_to_string(x)
            })
            &&& post == (RuntimeView { pending: Some(Pending::AwaitWrite(stderr)), ..pre })
        })
        &&& (v is Some && !(x.variant is Float) && debugged) ==> ({
            &&& r matches StepOutcome::Request(q) && (if stderr {
                q matches HostRequest::WriteStderr(t) && t@ == spec_to_string_debugged(x)
            } else {
                q matches HostRequest::WriteStdout(t) && t@ == spec_to_string_debugged(x)
            })
            &&& post == (RuntimeView { pending: Some(Pending::AwaitWrite(stderr)), ..pre })
        })
        &&& v is None ==> unwound(pre, post, r, "UnsetRegister"@)
    })
}

/// What a flush instruction does: the host is asked to flush the stream.
pub open spec fn step_flush(pre: RuntimeView, post: RuntimeView, r: StepOutcome, stderr: bool) -> bool {
    &&& (r matches StepOutcome::Request(q) && (if stderr {
        q is FlushStderr
    } else {
        q is FlushStdout
    }))
    &&& post == (RuntimeView { pending: Some(Pending::AwaitFlush), ..pre })
}

/// What a read instruction does: the host is asked for one line.
pub open spec fn step_read(pre: RuntimeView, post: RuntimeView, r: StepOutcome, reg: usize) -> bool {
    &&& (r matches StepOutcome::Request(q) && q is ReadLine)
    &&& post == (RuntimeView { pending: Some(Pending::AwaitLine(reg)), ..pre })
}

/// The one-instruction transition relation: what each fetched instruction
/// does to the machine, as `step` dispatches it.
pub open spec fn step_transition(pre: RuntimeView, post: RuntimeView, r: StepOutcome, ins: InstructionView) -> bool {
    match ins {
        InstructionView::Move(reg, v) => step_move(pre, post, r, reg, v),
        InstructionView::MoveBetween(a, b) => step_move_between(pre, post, r, a, b),
        InstructionView::MoveArgument(n2, reg) => step_move_argument(pre, post, r, n2, reg),
        InstructionView::MoveAsArgument(reg) => step_move_as_argument(pre, post, r, reg),
        InstructionView::Add(a, b, d) => step_arith(pre, post, r, ArithOp::Add, a, b, d),
        InstructionView::Sub(a, b, d) => step_arith(pre, post, r, ArithOp::Sub, a, b, d),
        InstructionView::Mul(a, b, d) => step_arith(pre, post, r, ArithOp::Mul, a, b, d),
        InstructionView::Div(a, b, d) => step_arith(pre, post, r, ArithOp::Div, a, b, d),
        InstructionView::Rem(a, b, d) => step_arith(pre, post, r, ArithOp::Rem, a, b, d),
        InstructionView::Pow(a, b, d) => step_arith(pre, post, r, ArithOp::Pow, a, b, d),
        InstructionView::Or(a, b, d) => step_bool(pre, post, r, BoolOp::Or, a, b, d),
        InstructionView::Xor(a, b, d) => step_bool(pre, post, r, BoolOp::Xor, a, b, d),
        InstructionView::And(a, b, d) => step_bool(pre, post, r, BoolOp::And, a, b, d),
        InstructionView::Not(a, d) => step_not(pre, post, r, a, d),
        InstructionView::Lt(a, b, d) => step_cmp(pre, post, r, CmpOp::Lt, a, b, d),
        InstructionView::Le(a, b, d) => step_cmp(pre, post, r, CmpOp::Le, a, b, d),
        InstructionView::Gt(a, b, d) => step_cmp(pre, post, r, CmpOp::Gt, a, b, d),
        InstructionView::Ge(a, b, d) => step_cmp(pre, post, r, CmpOp::Ge, a, b, d),
        InstructionView::Return => step_return(pre, post, r),
        InstructionView::SetVariable(reg, n2) => step_set_variable(pre, post, r, reg, n2),
        InstructionView::MovFromVariable(n2, reg) => step_mov_from_variable(pre, post, r, n2, reg),
        InstructionView::ThrowFrom(a, b) => step_throw_from(pre, post, r, a, b),
        InstructionView::Eq(a, b, d) => step_eq(pre, post, r, a, b, d, false),
        InstructionView::Ne(a, b, d) => step_eq(pre, post, r, a, b, d, true),
        InstructionView::DefineLabel(_) => r is Ran && post == pre,
        InstructionView::JumpUnconditional(n2) => step_jump(pre, post, r, n2),
        InstructionView::JumpConditional(reg, n2) => step_jump_cond(pre, post, r, reg, n2),
        InstructionView::Call(n2) => step_call(pre, post, r, n2),
        InstructionView::DefineFnLabel(_, _, _) => step_skip_fn_body(pre, post, r),
        InstructionView::EndFunction => r is Ran && post == pre,
        InstructionView::StdoutWrite(reg) => step_write(pre, post, r, reg, false, false),
        InstructionView::StdoutWriteDebugged(reg) => step_write(pre, post, r, reg, false, true),
        InstructionView::StdoutFlush => step_flush(pre, post, r, false),
        InstructionView::StderrWrite(reg) => step_write(pre, post, r, reg, true, false),
        InstructionView::StderrWriteDebugged(reg) => step_write(pre, post, r, reg, true, true),
        InstructionView::StderrFlush => step_flush(pre, post, r, true),
        InstructionView::BufferedStdinRead(reg) => step_read(pre, post, r, reg),
    }
}

impl MirageRuntime {
    /// One step of the machine: fetches the instruction under the advanced
    /// counter and dispatches it, and its outcome and new state are exactly
    /// what `step_transition` says of the fetched instruction over the
    /// advanced state. With a request pending, nothing happens.
    pub fn step(&mut self) -> (r: StepOutcome)
        requires
            old(self).inv(),
        ensures
            final(self).inv(),
            old(self)@.pending is Some ==> r is AwaitingHost && final(self)@ == old(self)@,
            old(self)@.pending is None ==> ((r is Request <==> final(self)@.pending is Some)),
            old(self)@.pending is None && old(self)@.pc + 1 >= old(self)@.instructions.len() ==> (
            r matches StepOutcome::Finished(v) && final(self)@ == (RuntimeView {
                pc: old(self)@.instructions.len() as int,
                ..old(self)@
            }) && (match v {
                Some(x) => reg_of(old(self)@, 15) == Some(x@),
                None => reg_of(old(self)@, 15) is None,
            })),
            (old(self)@.pending is None && old(self)@.pc + 1 < old(self)@.instructions.len())
                ==> step_transition(
                RuntimeView { pc: old(self)@.pc + 1, ..old(self)@ },
                final(self)@,
                r,
                old(self)@.instructions[old(self)@.pc + 1],
            ),
    {
        if self.pending.is_some() {
            return StepOutcome::AwaitingHost;
        }
        let pc1 = self.program_counter + 1;
        if (pc1 as usize) >= self.instructions.len() {
            self.program_counter = self.instructions.len() as i32;
            return StepOutcome::Finished(self.reg_cloned(15));
        }
        self.program_counter = pc1;
        proof {
            assert(self@ =~= (RuntimeView { pc: old(self)@.pc + 1, ..old(self)@ }));
        }
        let instr = self.instructions[pc1 as usize].clone();
        proof {
            assert(self.instructions.deep_view()[pc1 as int] == self.instructions@[pc1 as int]@);
            assert(crate::instructions::instr_wf(self.instructions.deep_view()[pc1 as int]));
            assert(crate::instructions::instr_wf(instr@));
            assert(instr@ == old(self)@.instructions[old(self)@.pc + 1]);
        }
        match instr {
            Instruction::Move(reg, value) => self.do_move(reg, value),
            Instruction::MoveBetween(src, dst) => self.do_move_between(src, dst),
            Instruction::MoveArgument(arg, reg) => self.do_move_argument(arg, reg),
            Instruction::MoveAsArgument(reg) => self.do_move_as_argument(reg),
            Instruction::Add(a, b, d) => self.do_arith(ArithOp::Add, a, b, d),
            Instruction::Sub(a, b, d) => self.do_arith(ArithOp::Sub, a, b, d),
            Instruction::Mul(a, b, d) => self.do_arith(ArithOp::Mul, a, b, d),
            Instruction::Div(a, b, d) => self.do_arith(ArithOp::Div, a, b, d),
            Instruction::Rem(a, b, d) => self.do_arith(ArithOp::Rem, a, b, d),
            Instruction::Pow(a, b, d) => self.do_arith(ArithOp::Pow, a, b, d),
            Instruction::Or(a, b, d) => self.do_bool(BoolOp::Or, a, b, d),
            Instruction::Xor(a, b, d) => self.do_bool(BoolOp::Xor, a, b, d),
            Instruction::And(a, b, d) => self.do_bool(BoolOp::And, a, b, d),
            Instruction::Not(src, dst) => self.do_not(src, dst),
            Instruction::Lt(a, b, d) => self.do_cmp(CmpOp::Lt, a, b, d),
            Instruction::Le(a, b, d) => self.do_cmp(CmpOp::Le, a, b, d),
            Instruction::Gt(a, b, d) => self.do_cmp(CmpOp::Gt, a, b, d),
            Instruction::Ge(a, b, d) => self.do_cmp(CmpOp::Ge, a, b, d),
            Instruction::Return => self.do_return(),
            Instruction::SetVariable(reg, name) => self.do_set_variable(reg, name),
            Instruction::MovFromVariable(name, reg) => self.do_mov_from_variable(name, reg),
            Instruction::ThrowFrom(rr, mr) => self.do_throw_from(rr, mr),
            Instruction::Eq(a, b, d) => self.do_eq(a, b, d, false),
            Instruction::Ne(a, b, d) => self.do_eq(a, b, d, true),
            Instruction::DefineLabel(_) => StepOutcome::Ran,
            Instruction::JumpUnconditional(name) => self.do_jump(name),
            Instruction::JumpConditional(reg, name) => self.do_jump_cond(reg, name),
            Instruction::Call(name) => self.do_call(name),
            Instruction::DefineFnLabel(_, _, _) => self.do_skip_fn_body(),
            Instruction::EndFunction => StepOutcome::Ran,
            Instruction::StdoutWrite(reg) => self.do_write(reg, false, false),
            Instruction::StdoutWriteDebugged(reg) => self.do_write(reg, false, true),
            Instruction::StdoutFlush => self.do_flush(false),
            Instruction::StderrWrite(reg) => self.do_write(reg, true, false),
            Instruction::StderrWriteDebugged(reg) => self.do_write(reg, true, true),
            Instruction::StderrFlush => self.do_flush(true),
            Instruction::BufferedStdinRead(reg) => self.do_read(reg),
        }
    }

    /// Stores a literal in a register.
    fn do_move(&mut self, reg: usize, value: MiValue) -> (r: StepOutcome)
        requires
            old(self).inv(),
            old(self)@.pending is None,
            value_wf(value@),
        ensures
            final(self).inv(),
            step_move(old(self)@, final(self)@, r, reg, value@),
    {
        match self.set_reg(reg, value) {
            Ok(_) => {
                proof {
                    if reg < 16 {
                        assert(final(self)@ =~= (RuntimeView {
                            registers: old(self)@.registers.update(reg as int, Some(value@)),
                            ..old(self)@
                        }));
                    }
                }
                StepOutcome::Ran
            },
            Err(e) => {
                proof {
                    assert(final(self)@ =~= old(self)@);
                }
                StepOutcome::Failed(e)
            },
        }
    }

    /// Copies one register to another; an unset source throws.
    fn do_move_between(&mut self, src: usize, dst: usize) -> (r: StepOutcome)
        requires
            old(self).inv(),
            old(self)@.pending is None,
        ensures
            final(self).inv(),
            step_move_between(old(self)@, final(self)@, r, src, dst),
    {
        match self.reg_cloned(src) {
            Some(value) => {
                match self.set_reg(dst, value) {
                    Ok(_) => {
                        proof {
                            assert(final(self)@ =~= (RuntimeView {
                                registers: old(self)@.registers.update(
                                    dst as int,
                                    Some(reg_of(old(self)@, src)->Some_0),
                                ),
                                ..old(self)@
                            }));
                        }
                        StepOutcome::Ran
                    },
                    Err(e) => StepOutcome::Failed(e),
                }
            },
            None => {
                let mut m = String::from_str("The register `");
                m.append(u64_to_dec_string(src as u64).as_str());
                m.append(" has not been set yet.");
                self.throw_step("UnsetRegister", m)
            },
        }
    }
}

/// An error was thrown: execution resumed at a handler, or the machine
/// failed with an error of this name.
pub open spec fn unwound(
    pre: RuntimeView,
    post: RuntimeView,
    r: StepOutcome,
    name: Seq<char>,
) -> bool {
    match spec_unwind(pre.stack) {
        Some(p) => r is Ran && post.pc == p.0 as i32 as int && post.stack == p.1 && post == (
        RuntimeView { stack: post.stack, pc: post.pc, ..pre }),
        None => (r matches StepOutcome::Failed(e) && e@.name == name) && post.stack
            =~= Seq::<FrameView>::empty() && post == (RuntimeView { stack: post.stack, ..pre }),
    }
}


impl MirageRuntime {
    /// Builds the "register unset" diagnostic.
    fn unset_reg_message(&self, reg: usize) -> (r: String)
    {
        let mut m = String::from_str("The register `");
        m.append(u64_to_dec_string(reg as u64).as_str());
        m.append("` has not been set yet.");
        m
    }

    /// Copies a bound argument of the current frame into a register.
    fn do_move_argument(&mut self, arg: String, reg: usize) -> (r: StepOutcome)
        requires
            old(self).inv(),
            old(self)@.pending is None,
        ensures
            final(self).inv(),
            step_move_argument(old(self)@, final(self)@, r, arg@, reg),
    {
        let found = match self.stack.last_frame() {
            Some(frame) => {
                proof {
                    assert(frame_values_wf(self@.stack.last()));
                }
                match frame.get_arg(&arg) {
                    Some(v) => Some(v.clone()),
                    None => None,
                }
            },
            None => None,
        };
        proof {
            if old(self)@.stack.len() > 0 {
                crate::maps::lemma_assoc_get_is_entry(old(self)@.stack.last().args, arg@);
                assert(frame_values_wf(old(self)@.stack.last()));
            }
        }
        match found {
            Some(value) => {
                match self.set_reg(reg, value) {
                    Ok(_) => {
                        proof {
                            assert(final(self)@ =~= (RuntimeView {
                                registers: old(self)@.registers.update(
                                    reg as int,
                                    Some(spec_assoc_get(old(self)@.stack.last().args, arg@)->Some_0),
                                ),
                                ..old(self)@
                            }));
                        }
                        StepOutcome::Ran
                    },
                    Err(e) => StepOutcome::Failed(e),
                }
            },
            None => {
                let mut m = String::from_str("The argument `");
                m.append(arg.as_str());
                m.append("` has not been defined yet.");
                self.throw_step("UndefinedArgument", m)
            },
        }
    }

    /// Pushes a register's value onto the argument stack.
    fn do_move_as_argument(&mut self, reg: usize) -> (r: StepOutcome)
        requires
            old(self).inv(),
            old(self)@.pending is None,
        ensures
            final(self).inv(),
            step_move_as_argument(old(self)@, final(self)@, r, reg),
    {
        match self.reg_cloned(reg) {
            Some(value) => {
                self.argument_stack.push(value);
                proof {
                    assert(self.argument_stack.deep_view() =~= old(
                        self,
                    ).argument_stack.deep_view().push(
                        reg_of(old(self)@, reg)->Some_0,
                    ));
                    assert(final(self)@ =~= (RuntimeView {
                        argument_stack: old(self)@.argument_stack.push(
                            reg_of(old(self)@, reg)->Some_0,
                        ),
                        ..old(self)@
                    }));
                }
                StepOutcome::Ran
            },
            None => {
                let m = self.unset_reg_message(reg);
                self.throw_step("UnsetRegister", m)
            },
        }
    }

    /// Reads both operands of a binary opcode; either being unset throws.
    /// Beyond this point the caller has two well-formed values.
    fn read_operands(&mut self, r1: usize, r2: usize) -> (r: Result<(MiValue, MiValue), StepOutcome>)
        requires
            old(self).inv(),
            old(self)@.pending is None,
        ensures
            final(self).inv(),
            final(self)@.pending is None,
            match r {
                Ok(p) => final(self)@ == old(self)@ && reg_of(old(self)@, r1) == Some(p.0@)
                    && reg_of(old(self)@, r2) == Some(p.1@) && value_wf(p.0@) && value_wf(p.1@),
                Err(out) => !(out is Request) && unwound(
                    old(self)@,
                    final(self)@,
                    out,
                    "UnsetRegister"@,
                ) && (reg_of(old(self)@, r1) is None || reg_of(old(self)@, r2) is None),
            },
    {
        let v1 = match self.reg_cloned(r1) {
            Some(v) => v,
            None => {
                let m = self.unset_reg_message(r1);
                return Err(self.throw_step("UnsetRegister", m));
            },
        };
        let v2 = match self.reg_cloned(r2) {
            Some(v) => v,
            None => {
                let m = self.unset_reg_message(r2);
                return Err(self.throw_step("UnsetRegister", m));
            },
        };
        Ok((v1, v2))
    }

    /// Throws `InvalidType` with a diagnostic built around a type name.
    fn throw_invalid_type(&mut self, before: &str, t: MiType, after: &str) -> (r: StepOutcome)
        requires
            old(self).inv(),
        ensures
            final(self).inv(),
            final(self)@.pending == old(self)@.pending,
            unwound(old(self)@, final(self)@, r, "InvalidType"@),
    {
        let mut m = String::from_str(before);
        m.append(crate::render::type_title(t));
        m.append(after);
        self.throw_step("InvalidType", m)
    }

    /// Arithmetic: both operands must be numeric and share a type. Two
    /// integers produce the integer `spec_int_arith` gives, or `MathError`
    /// where it gives none; two floats are handed to the host, whose bits
    /// come back as the destination's float value.
    fn do_arith(&mut self, op: ArithOp, r1: usize, r2: usize, dst: usize) -> (r: StepOutcome)
        requires
            old(self).inv(),
            old(self)@.pending is None,
        ensures
            final(self).inv(),
            step_arith(old(self)@, final(self)@, r, op, r1, r2, dst),
    {
        let v1 = match self.reg_cloned(r1) {
            Some(v) => v,
            None => {
                let m = self.unset_reg_message(r1);
                return self.throw_step("UnsetRegister", m);
            },
        };
        if !v1.variant.is_numeric() {
            return self.throw_invalid_type("The type `", v1.variant, "` is not numeric");
        }
        let v2 = match self.reg_cloned(r2) {
            Some(v) => v,
            None => {
                let m = self.unset_reg_message(r2);
                return self.throw_step("UnsetRegister", m);
            },
        };
        if !v1.variant.is_numeric() {
            return self.throw_invalid_type("The type `", v1.variant, "` is not numeric");
        }
        if !v2.variant.is_numeric() {
            return self.throw_invalid_type("The type `", v2.variant, "` is not numeric");
        }
        match (v1.variant, v2.variant) {
            (MiType::Int, MiType::Int) => {
                let a = v1.read_i32();
                let b = v2.read_i32();
                let computed: Option<i32> = match op {
                    ArithOp::Add => Some(a.wrapping_add(b)),
                    ArithOp::Sub => Some(a.wrapping_sub(b)),
                    ArithOp::Mul => Some(a.wrapping_mul(b)),
                    ArithOp::Div => {
                        if b == 0 || (a == i32::MIN && b == -1i32) {
                            None
                        } else {
                            Some(i32_trunc_div(a, b))
                        }
                    },
                    ArithOp::Rem => {
                        if b == 0 || (a == i32::MIN && b == -1i32) {
                            None
                        } else {
                            Some(i32_trunc_rem(a, b))
                        }
                    },
                    ArithOp::Pow => {
                        if b < 0 {
                            None
                        } else {
                            Some(i32_wrap_pow(a, b as u32))
                        }
                    },
                };
                match computed {
                    Some(n) => {
                        match self.set_reg(dst, MiValue::from_i32(n)) {
                            Ok(_) => {
                                proof {
                                    if dst < 16 {
                                        assert(final(self)@ =~= (RuntimeView {
                                            registers: old(self)@.registers.update(
                                                dst as int,
                                                Some(spec_int_value(n)),
                                            ),
                                            ..old(self)@
                                        }));
                                    }
                                }
                                StepOutcome::Ran
                            },
                            Err(e) => StepOutcome::Failed(e),
                        }
                    },
                    None => {
                        let m = String::from_str(
                            "The operation has no defined value on these operands",
                        );
                        self.throw_step("MathError", m)
                    },
                }
            },
            (MiType::Float, MiType::Float) => {
                let bits1 = v1.read_float_bits();
                let bits2 = v2.read_float_bits();
                self.pending = Some(Pending::StoreFloat(dst));
                proof {
                    assert(final(self)@ =~= (RuntimeView {
                        pending: Some(Pending::StoreFloat(dst)),
                        ..old(self)@
                    }));
                }
                StepOutcome::Request(HostRequest::FloatArith(op, bits1, bits2))
            },
            _ => self.throw_invalid_type(
                "Cannot combine two different types: `",
                v1.variant,
                "` and the other operand's type",
            ),
        }
    }
}


impl MirageRuntime {
    /// Boolean connectives: both operands must be booleans; the truth of a
    /// payload is its first byte being non-zero, and the result is written
    /// in canonical form.
    fn do_bool(&mut self, op: BoolOp, r1: usize, r2: usize, dst: usize) -> (r: StepOutcome)
        requires
            old(self).inv(),
            old(self)@.pending is None,
        ensures
            final(self).inv(),
            step_bool(old(self)@, final(self)@, r, op, r1, r2, dst),
    {
        let v1 = match self.reg_cloned(r1) {
            Some(v) => v,
            None => {
                let m = self.unset_reg_message(r1);
                return self.throw_step("UnsetRegister", m);
            },
        };
        let is_bool0 = match v1.variant {
            MiType::Bool => true,
            _ => false,
        };
        if !is_bool0 {
            return self.throw_invalid_type("The type `", v1.variant, "` is not boolean");
        }
        let v2 = match self.reg_cloned(r2) {
            Some(v) => v,
            None => {
                let m = self.unset_reg_message(r2);
                return self.throw_step("UnsetRegister", m);
            },
        };
        let is_bool1 = match v1.variant {
            MiType::Bool => true,
            _ => false,
        };
        if !is_bool1 {
            return self.throw_invalid_type("The type `", v1.variant, "` is not boolean");
        }
        let is_bool2 = match v2.variant {
            MiType::Bool => true,
            _ => false,
        };
        if !is_bool2 {
            return self.throw_invalid_type("The type `", v2.variant, "` is not boolean");
        }
        let b1: bool = v1.bytes[0] != 0;
        let b2: bool = v2.bytes[0] != 0;
        let res: bool = match op {
            BoolOp::Or => b1 || b2,
            BoolOp::Xor => b1 != b2,
            BoolOp::And => b1 && b2,
        };
        match self.set_reg(dst, MiValue::from_bool(res)) {
            Ok(_) => {
                proof {
                    if dst < 16 {
                        assert(final(self)@ =~= (RuntimeView {
                            registers: old(self)@.registers.update(
                                dst as int,
                                Some(spec_bool_value(res)),
                            ),
                            ..old(self)@
                        }));
                    }
                }
                StepOutcome::Ran
            },
            Err(e) => StepOutcome::Failed(e),
        }
    }

    /// Logical NOT of a boolean register.
    fn do_not(&mut self, src: usize, dst: usize) -> (r: StepOutcome)
        requires
            old(self).inv(),
            old(self)@.pending is None,
        ensures
            final(self).inv(),
            step_not(old(self)@, final(self)@, r, src, dst),
    {
        let v1 = match self.reg_cloned(src) {
            Some(v) => v,
            None => {
                let m = self.unset_reg_message(src);
                return self.throw_step("UnsetRegister", m);
            },
        };
        let is_bool1 = match v1.variant {
            MiType::Bool => true,
            _ => false,
        };
        if !is_bool1 {
            return self.throw_invalid_type("The type `", v1.variant, "` is not boolean");
        }
        let b1: bool = v1.bytes[0] != 0;
        match self.set_reg(dst, MiValue::from_bool(!b1)) {
            Ok(_) => {
                proof {
                    if dst < 16 {
                        assert(final(self)@ =~= (RuntimeView {
                            registers: old(self)@.registers.update(
                                dst as int,
                                Some(spec_bool_value(!b1)),
                            ),
                            ..old(self)@
                        }));
                    }
                }
                StepOutcome::Ran
            },
            Err(e) => StepOutcome::Failed(e),
        }
    }

    /// Numeric comparisons: both operands must be numeric and share a
    /// type. Two integers produce the comparison's truth; two floats are
    /// handed to the host, whose answer becomes the boolean result.
    fn do_cmp(&mut self, op: CmpOp, r1: usize, r2: usize, dst: usize) -> (r: StepOutcome)
        requires
            old(self).inv(),
            old(self)@.pending is None,
        ensures
            final(self).inv(),
            step_cmp(old(self)@, final(self)@, r, op, r1, r2, dst),
    {
        let v1 = match self.reg_cloned(r1) {
            Some(v) => v,
            None => {
                let m = self.unset_reg_message(r1);
                return self.throw_step("UnsetRegister", m);
            },
        };
        if !v1.variant.is_numeric() {
            return self.throw_invalid_type("The type `", v1.variant, "` is not numeric");
        }
        let v2 = match self.reg_cloned(r2) {
            Some(v) => v,
            None => {
                let m = self.unset_reg_message(r2);
                return self.throw_step("UnsetRegister", m);
            },
        };
        if !v1.variant.is_numeric() {
            return self.throw_invalid_type("The type `", v1.variant, "` is not numeric");
        }
        if !v2.variant.is_numeric() {
            return self.throw_invalid_type("The type `", v2.variant, "` is not numeric");
        }
        match (v1.variant, v2.variant) {
            (MiType::Int, MiType::Int) => {
                let a = v1.read_i32();
                let b = v2.read_i32();
                let res: bool = match op {
                    CmpOp::Lt => a < b,
                    CmpOp::Le => a <= b,
                    CmpOp::Gt => a > b,
                    CmpOp::Ge => a >= b,
                };
                match self.set_reg(dst, MiValue::from_bool(res)) {
                    Ok(_) => {
                        proof {
                            if dst < 16 {
                                assert(final(self)@ =~= (RuntimeView {
                                    registers: old(self)@.registers.update(
                                        dst as int,
                                        Some(spec_bool_value(res)),
                                    ),
                                    ..old(self)@
                                }));
                            }
                        }
                        StepOutcome::Ran
                    },
                    Err(e) => StepOutcome::Failed(e),
                }
            },
            (MiType::Float, MiType::Float) => {
                let bits1 = v1.read_float_bits();
                let bits2 = v2.read_float_bits();
                self.pending = Some(Pending::StoreFlag(dst));
                proof {
                    assert(final(self)@ =~= (RuntimeView {
                        pending: Some(Pending::StoreFlag(dst)),
                        ..old(self)@
                    }));
                }
                StepOutcome::Request(HostRequest::FloatCompare(op, bits1, bits2))
            },
            _ => self.throw_invalid_type(
                "Cannot compare two different types: `",
                v1.variant,
                "` and the other operand's type",
            ),
        }
    }

    /// Structural equality and inequality of any two values.
    fn do_eq(&mut self, r1: usize, r2: usize, dst: usize, negate: bool) -> (r: StepOutcome)
        requires
            old(self).inv(),
            old(self)@.pending is None,
        ensures
            final(self).inv(),
            step_eq(old(self)@, final(self)@, r, r1, r2, dst, negate),
    {
        let (v1, v2) = match self.read_operands(r1, r2) {
            Ok(p) => p,
            Err(out) => {
                return out;
            },
        };
        proof {
            assert(<MiValue as vstd::std_specs::cmp::PartialEqSpec>::obeys_eq_spec());
        }
        let same = v1 == v2;
        proof {
            assert(same == (v1@ == v2@));
        }
        let res = if negate {
            !same
        } else {
            same
        };
        match self.set_reg(dst, MiValue::from_bool(res)) {
            Ok(_) => {
                proof {
                    if dst < 16 {
                        assert(final(self)@ =~= (RuntimeView {
                            registers: old(self)@.registers.update(
                                dst as int,
                                Some(spec_bool_value(res)),
                            ),
                            ..old(self)@
                        }));
                    }
                }
                StepOutcome::Ran
            },
            Err(e) => StepOutcome::Failed(e),
        }
    }

    /// Returns from the current frame: resumes at its return address, or
    /// finishes the program when the outermost frame returns; the result is
    /// then the value of register 15.
    fn do_return(&mut self) -> (r: StepOutcome)
        requires
            old(self).inv(),
            old(self)@.pending is None,
        ensures
            final(self).inv(),
            step_return(old(self)@, final(self)@, r),
    {
        match self.stack.pop_frame() {
            Some(frame) => {
                match frame.return_addr {
                    Some(addr) => {
                        self.program_counter = addr as i32;
                        proof {
                            assert(frame_addrs_ok(
                                old(self)@.stack.last(),
                                old(self)@.instructions.len() as int,
                            ));
                        }
                        StepOutcome::Ran
                    },
                    None => {
                        self.program_counter = self.instructions.len() as i32;
                        StepOutcome::Finished(self.reg_cloned(15))
                    },
                }
            },
            None => {
                let e = MiError {
                    name: String::from_str("StackUnderflow"),
                    message: String::from_str("No frame to return to"),
                    backtrace: String::new(),
                };
                StepOutcome::Failed(e)
            },
        }
    }

    /// Binds a local variable of the current frame to a register's value.
    fn do_set_variable(&mut self, reg: usize, name: String) -> (r: StepOutcome)
        requires
            old(self).inv(),
            old(self)@.pending is None,
        ensures
            final(self).inv(),
            step_set_variable(old(self)@, final(self)@, r, reg, name@),
    {
        if self.stack.depth() == 0 {
            let m = String::from_str("Current frame is not valid");
            return self.throw_step("StackUnderflow", m);
        }
        match self.reg_cloned(reg) {
            Some(value) => {
                self.stack.top_insert_local(name, value);
                proof {
                    assert(final(self)@ =~= (RuntimeView {
                        stack: final(self)@.stack,
                        ..old(self)@
                    }));
                    assert(frame_values_wf(old(self)@.stack.last()));
                    assert(frame_values_wf(self@.stack.last())) by {
                        assert forall|i: int|
                            0 <= i < self@.stack.last().locals.len() implies value_wf(
                            (#[trigger] self@.stack.last().locals[i]).1,
                        ) by {
                            if self@.stack.last().locals[i] != (
                                name@,
                                reg_of(old(self)@, reg)->Some_0,
                            ) {
                                let j = choose|j: int|
                                    0 <= j < old(self)@.stack.last().locals.len() && self@.stack.last().locals[i]
                                        == #[trigger] old(self)@.stack.last().locals[j];
                                assert(value_wf(old(self)@.stack.last().locals[j].1));
                            }
                        }
                    }
                    assert(stack_values_wf(self@.stack)) by {
                        assert forall|i: int|
                            0 <= i < self@.stack.len() implies frame_values_wf(
                            #[trigger] self@.stack[i],
                        ) by {
                            if i < self@.stack.len() - 1 {
                                assert(self@.stack[i] == old(self)@.stack[i]);
                            } else {
                                assert(self@.stack[i] == self@.stack.last());
                            }
                        }
                    }
                }
                StepOutcome::Ran
            },
            None => {
                let mut m = String::from_str("The register `");
                m.append(u64_to_dec_string(reg as u64).as_str());
                m.append("` is not valid.");
                self.throw_step("UnsetRegister", m)
            },
        }
    }

    /// Copies a local variable of the current frame into a register.
    fn do_mov_from_variable(&mut self, name: String, reg: usize) -> (r: StepOutcome)
        requires
            old(self).inv(),
            old(self)@.pending is None,
        ensures
            final(self).inv(),
            step_mov_from_variable(old(self)@, final(self)@, r, name@, reg),
    {
        let found = match self.stack.last_frame() {
            Some(frame) => {
                proof {
                    assert(frame_values_wf(self@.stack.last()));
                }
                match frame.get_local(&name) {
                    Some(v) => Some(v.clone()),
                    None => None,
                }
            },
            None => None,
        };
        proof {
            if old(self)@.stack.len() > 0 {
                crate::maps::lemma_assoc_get_is_entry(old(self)@.stack.last().locals, name@);
                assert(frame_values_wf(old(self)@.stack.last()));
            }
        }
        match found {
            Some(value) => {
                match self.set_reg(reg, value) {
                    Ok(_) => {
                        proof {
                            assert(final(self)@ =~= (RuntimeView {
                                registers: old(self)@.registers.update(
                                    reg as int,
                                    Some(
                                        spec_assoc_get(
                                            old(self)@.stack.last().locals,
                                            name@,
                                        )->Some_0,
                                    ),
                                ),
                                ..old(self)@
                            }));
                        }
                        StepOutcome::Ran
                    },
                    Err(e) => StepOutcome::Failed(e),
                }
            },
            None => {
                let mut m = String::from_str("Cannot move value of variable `");
                m.append(name.as_str());
                m.append("` to register `");
                m.append(u64_to_dec_string(reg as u64).as_str());
                m.append("` because `");
                m.append(name.as_str());
                m.append("` is not defined.");
                self.throw_step("UndefinedVariable", m)
            },
        }
    }

    /// Throws an error whose name and message are the lossily decoded
    /// payloads of two registers.
    fn do_throw_from(&mut self, reason_reg: usize, msg_reg: usize) -> (r: StepOutcome)
        requires
            old(self).inv(),
            old(self)@.pending is None,
        ensures
            final(self).inv(),
            step_throw_from(old(self)@, final(self)@, r, reason_reg, msg_reg),
    {
        let reason_val = match self.reg_cloned(reason_reg) {
            Some(v) => v,
            None => {
                let m = self.unset_reg_message(reason_reg);
                return self.throw_step("UnsetRegister", m);
            },
        };
        let msg_val = match self.reg_cloned(msg_reg) {
            Some(v) => v,
            None => {
                let m = self.unset_reg_message(msg_reg);
                return self.throw_step("UnsetRegister", m);
            },
        };
        let reason = bytes_to_string_lossy(reason_val.bytes.as_slice());
        let message = bytes_to_string_lossy(msg_val.bytes.as_slice());
        proof {
            lemma_unwind_addr_ok(self@.stack, self.instructions@.len() as int);
        }
        match self.throw(reason, message) {
            Ok(addr) => {
                proof {
                    assert(spec_unwind(old(self)@.stack) is Some);
                    assert(addr as int == spec_unwind(old(self)@.stack)->Some_0.0 as int);
                    assert(self@.instructions == old(self)@.instructions);
                    assert(self.instructions@.len() == old(self).instructions@.len()) by {
                        assert(self.instructions.deep_view().len() == self.instructions@.len());
                        assert(old(self).instructions.deep_view().len() == old(
                            self,
                        ).instructions@.len());
                    }
                    assert(addr as int <= self.instructions@.len() as int);
                    assert(addr >= 0);
                }
                self.program_counter = addr;
                StepOutcome::Ran
            },
            Err(e) => StepOutcome::Failed(e),
        }
    }

    /// Jumps to a label: the counter lands on the label's index plus one
    /// before the next fetch advances it.
    fn do_jump(&mut self, name: String) -> (r: StepOutcome)
        requires
            old(self).inv(),
            old(self)@.pending is None,
        ensures
            final(self).inv(),
            step_jump(old(self)@, final(self)@, r, name@),
    {
        let found = match assoc_get(&self.labels, &name) {
            Some(p) => Some(*p),
            None => None,
        };
        match found {
            Some(label_pos) => {
                self.program_counter = label_pos + 1;
                StepOutcome::Ran
            },
            None => {
                let mut m = String::from_str("The label `");
                m.append(name.as_str());
                m.append("` is currently not defined.");
                self.throw_step("UnsetLabel", m)
            },
        }
    }

    /// Conditional jump: taken exactly when the register's first byte is
    /// one; an empty payload falls through.
    fn do_jump_cond(&mut self, reg: usize, name: String) -> (r: StepOutcome)
        requires
            old(self).inv(),
            old(self)@.pending is None,
        ensures
            final(self).inv(),
            step_jump_cond(old(self)@, final(self)@, r, reg, name@),
    {
        let value = match self.reg_cloned(reg) {
            Some(v) => v,
            None => {
                let m = self.unset_reg_message(reg);
                return self.throw_step("UnsetRegister", m);
            },
        };
        if value.bytes.len() > 0 && value.bytes[0] == 1u8 {
            let found = match assoc_get(&self.labels, &name) {
                Some(p) => Some(*p),
                None => None,
            };
            match found {
                Some(label_pos) => {
                    self.program_counter = label_pos + 1;
                    StepOutcome::Ran
                },
                None => {
                    let mut m = String::from_str("The label `");
                    m.append(name.as_str());
                    m.append("` is currently not defined.");
                    self.throw_step("UnsetLabel", m)
                },
            }
        } else {
            proof {
                assert(final(self)@ =~= old(self)@);
            }
            StepOutcome::Ran
        }
    }

    /// Skips a function body during straight-line execution: the counter
    /// advances to the matching `EndFunction`, or to the last instruction.
    fn do_skip_fn_body(&mut self) -> (r: StepOutcome)
        requires
            old(self).inv(),
            old(self)@.pending is None,
            0 <= old(self)@.pc < old(self)@.instructions.len(),
        ensures
            final(self).inv(),
            step_skip_fn_body(old(self)@, final(self)@, r),
    {
        loop
            invariant
                self.inv(),
                self@ == (RuntimeView { pc: self@.pc, ..old(self)@ }),
                0 <= self@.pc < self@.instructions.len(),
                self@.pending is None,
            decreases self@.instructions.len() - self@.pc,
        {
            let next = self.program_counter + 1;
            if (next as usize) >= self.instructions.len() {
                return StepOutcome::Ran;
            }
            self.program_counter = next;
            let is_end = match &self.instructions[next as usize] {
                Instruction::EndFunction => true,
                _ => false,
            };
            if is_end {
                return StepOutcome::Ran;
            }
        }
    }

    /// Writes a register's rendering to a stream: a float is first handed
    /// to the host for formatting, everything else renders in the core and
    /// goes straight out as a write request.
    fn do_write(&mut self, reg: usize, stderr: bool, debugged: bool) -> (r: StepOutcome)
        requires
            old(self).inv(),
            old(self)@.pending is None,
        ensures
            final(self).inv(),
            step_write(old(self)@, final(self)@, r, reg, stderr, debugged),
    {
        let value = match self.reg_cloned(reg) {
            Some(v) => v,
            None => {
                let m = self.unset_reg_message(reg);
                return self.throw_step("UnsetRegister", m);
            },
        };
        let is_float = match value.variant {
            MiType::Float => true,
            _ => false,
        };
        if is_float {
            let bits = value.read_float_bits();
            self.pending = Some(Pending::WriteText(stderr));
            proof {
                assert(final(self)@ =~= (RuntimeView {
                    pending: Some(Pending::WriteText(stderr)),
                    ..old(self)@
                }));
            }
            return StepOutcome::Request(HostRequest::FormatFloat(bits));
        }
        let text = if debugged {
            value.to_string_debugged()
        } else {
            value.to_string()
        };
        self.pending = Some(Pending::AwaitWrite(stderr));
        proof {
            assert(final(self)@ =~= (RuntimeView {
                pending: Some(Pending::AwaitWrite(stderr)),
                ..old(self)@
            }));
        }
        if stderr {
            StepOutcome::Request(HostRequest::WriteStderr(text))
        } else {
            StepOutcome::Request(HostRequest::WriteStdout(text))
        }
    }

    /// Asks the host to flush a stream.
    fn do_flush(&mut self, stderr: bool) -> (r: StepOutcome)
        requires
            old(self).inv(),
            old(self)@.pending is None,
        ensures
            final(self).inv(),
            step_flush(old(self)@, final(self)@, r, stderr),
    {
        self.pending = Some(Pending::AwaitFlush);
        proof {
            assert(final(self)@ =~= (RuntimeView {
                pending: Some(Pending::AwaitFlush),
                ..old(self)@
            }));
        }
        if stderr {
            StepOutcome::Request(HostRequest::FlushStderr)
        } else {
            StepOutcome::Request(HostRequest::FlushStdout)
        }
    }

    /// Asks the host for one line of standard input.
    fn do_read(&mut self, reg: usize) -> (r: StepOutcome)
        requires
            old(self).inv(),
            old(self)@.pending is None,
        ensures
            final(self).inv(),
            step_read(old(self)@, final(self)@, r, reg),
    {
        self.pending = Some(Pending::AwaitLine(reg));
        proof {
            assert(final(self)@ =~= (RuntimeView {
                pending: Some(Pending::AwaitLine(reg)),
                ..old(self)@
            }));
        }
        StepOutcome::Request(HostRequest::ReadLine)
    }

    /// Hands the host's answer back to the machine. A reply that does not
    /// fit the pending request leaves the machine untouched.
    pub fn resume(&mut self, reply: HostReply) -> (r: StepOutcome)
        requires
            old(self).inv(),
        ensures
            final(self).inv(),
            old(self)@.pending is None ==> r is AwaitingHost && final(self)@ == old(self)@,
            r is Request ==> final(self)@.pending is Some,
            ({
                let p = old(self)@.pending->Some_0;
                let has = old(self)@.pending is Some;
                &&& (has && p is StoreFloat && reply is Bits && p->StoreFloat_0 < 16) ==> ({
                    &&& r is Ran
                    &&& final(self)@ == (RuntimeView {
                        registers: old(self)@.registers.update(
                            p->StoreFloat_0 as int,
                            Some(spec_float_value(reply->Bits_0)),
                        ),
                        pending: None,
                        ..old(self)@
                    })
                })
                &&& (has && p is StoreFlag && reply is Truth && p->StoreFlag_0 < 16) ==> ({
                    &&& r is Ran
                    &&& final(self)@ == (RuntimeView {
                        registers: old(self)@.registers.update(
                            p->StoreFlag_0 as int,
                            Some(spec_bool_value(reply->Truth_0)),
                        ),
                        pending: None,
                        ..old(self)@
                    })
                })
                &&& (has && p is WriteText && reply is Text) ==> ({
                    &&& r matches StepOutcome::Request(q) && (if p->WriteText_0 {
                        q matches HostRequest::WriteStderr(t2) && t2@ == reply->Text_0@
                    } else {
                        q matches HostRequest::WriteStdout(t2) && t2@ == reply->Text_0@
                    })
                    &&& final(self)@ == (RuntimeView {
                        pending: Some(Pending::AwaitWrite(p->WriteText_0)),
                        ..old(self)@
                    })
                })
                &&& (has && p is AwaitWrite && reply is WriteDone) ==> ({
                    &&& r is Ran
                    &&& final(self)@ == (RuntimeView { pending: None, ..old(self)@ })
                })
                &&& (has && p is AwaitFlush && reply is Flushed) ==> ({
                    &&& r is Ran
                    &&& final(self)@ == (RuntimeView { pending: None, ..old(self)@ })
                })
                &&& (has && p is AwaitLine && reply is Line && p->AwaitLine_0 < 16) ==> ({
                    &&& r is Ran
                    &&& final(self)@ == (RuntimeView {
                        registers: old(self)@.registers.update(
                            p->AwaitLine_0 as int,
                            Some(
                                ValueView {
                                    bytes: crate::value::spec_string_payload(reply->Line_0@),
                                    variant: MiType::String,
                                },
                            ),
                        ),
                        pending: None,
                        ..old(self)@
                    })
                })
            }),
    {
        let pending = match self.pending {
            Some(p) => p,
            None => {
                return StepOutcome::AwaitingHost;
            },
        };
        match (pending, reply) {
            (Pending::StoreFloat(dst), HostReply::Bits(bits)) => {
                self.pending = None;
                match self.set_reg(dst, MiValue::from_float_bits(bits)) {
                    Ok(_) => {
                        proof {
                            if dst < 16 {
                                assert(final(self)@ =~= (RuntimeView {
                                    registers: old(self)@.registers.update(
                                        dst as int,
                                        Some(spec_float_value(bits)),
                                    ),
                                    pending: None,
                                    ..old(self)@
                                }));
                            }
                        }
                        StepOutcome::Ran
                    },
                    Err(e) => StepOutcome::Failed(e),
                }
            },
            (Pending::StoreFlag(dst), HostReply::Truth(t)) => {
                self.pending = None;
                match self.set_reg(dst, MiValue::from_bool(t)) {
                    Ok(_) => {
                        proof {
                            if dst < 16 {
                                assert(final(self)@ =~= (RuntimeView {
                                    registers: old(self)@.registers.update(
                                        dst as int,
                                        Some(spec_bool_value(t)),
                                    ),
                                    pending: None,
                                    ..old(self)@
                                }));
                            }
                        }
                        StepOutcome::Ran
                    },
                    Err(e) => StepOutcome::Failed(e),
                }
            },
            (Pending::WriteText(stderr), HostReply::Text(t)) => {
                self.pending = Some(Pending::AwaitWrite(stderr));
                proof {
                    assert(final(self)@ =~= (RuntimeView {
                        pending: Some(Pending::AwaitWrite(stderr)),
                        ..old(self)@
                    }));
                }
                if stderr {
                    StepOutcome::Request(HostRequest::WriteStderr(t))
                } else {
                    StepOutcome::Request(HostRequest::WriteStdout(t))
                }
            },
            (Pending::AwaitWrite(_), HostReply::WriteDone) => {
                self.pending = None;
                proof {
                    assert(final(self)@ =~= (RuntimeView { pending: None, ..old(self)@ }));
                }
                StepOutcome::Ran
            },
            (Pending::AwaitWrite(_), HostReply::WriteFailed(err)) => {
                self.pending = None;
                let mut m = String::from_str("Error writing to stderr: ");
                m.append(err.as_str());
                self.throw_step("IOError", m)
            },
            (Pending::AwaitFlush, HostReply::Flushed) => {
                self.pending = None;
                proof {
                    assert(final(self)@ =~= (RuntimeView { pending: None, ..old(self)@ }));
                }
                StepOutcome::Ran
            },
            (Pending::AwaitLine(dst), HostReply::Line(line)) => {
                self.pending = None;
                match self.set_reg(dst, MiValue::from_str_value(line.as_str())) {
                    Ok(_) => {
                        proof {
                            if dst < 16 {
                                assert(final(self)@ =~= (RuntimeView {
                                    registers: old(self)@.registers.update(
                                        dst as int,
                                        Some(
                                            ValueView {
                                                bytes: crate::value::spec_string_payload(line@),
                                                variant: MiType::String,
                                            },
                                        ),
                                    ),
                                    pending: None,
                                    ..old(self)@
                                }));
                            }
                        }
                        StepOutcome::Ran
                    },
                    Err(e) => StepOutcome::Failed(e),
                }
            },
            (Pending::AwaitLine(_), HostReply::ReadFailed(err)) => {
                self.pending = None;
                let mut m = String::from_str("Unable to read a line from stdin: ");
                m.append(err.as_str());
                self.throw_step("IOError", m)
            },
            _ => StepOutcome::AwaitingHost,
        }
    }
}


impl MirageRuntime {
    /// Calls a function label: binds the declared parameters from the
    /// argument stack — the last value pushed binds the last parameter —
    /// pushes the frame, and continues at the function's position. An
    /// unknown name, a short argument stack, or a full call stack throws.
    fn do_call(&mut self, name: String) -> (r: StepOutcome)
        requires
            old(self).inv(),
            old(self)@.pending is None,
            old(self)@.pc + 1 <= old(self)@.instructions.len(),
        ensures
            final(self).inv(),
            step_call(old(self)@, final(self)@, r, name@),
    {
        let found = match assoc_get(&self.function_addr_table, &name) {
            Some(e) => Some(
                (crate::instructions::clone_strings(&e.params), e.pos),
            ),
            None => None,
        };
        let (params, real_label) = match found {
            Some(p) => p,
            None => {
                let mut m = String::from_str("Cannot call undefined function `");
                m.append(name.as_str());
                m.append("`");
                return self.throw_step("UndefinedFunction", m);
            },
        };
        let n = params.len();
        if self.argument_stack.len() < n {
            let mut m = String::from_str("Cannot satisfy the arguments size for the function `");
            m.append(name.as_str());
            m.append("`: ");
            m.append(u64_to_dec_string(n as u64).as_str());
            return self.throw_step("NotEnoughArguments", m);
        }
        let ghost old_args = self.argument_stack.deep_view();
        let ghost pviews = spec_assoc_get(old(self)@.functions, name@)->Some_0.params;
        let mut bound: Vec<(String, MiValue)> = Vec::new();
        let mut params_rev = params;
        let mut k: usize = n;
        while k > 0
            invariant
                0 <= k <= n,
                params_rev@.len() == k,
                n <= old_args.len(),
                self.argument_stack.deep_view() =~= old_args.take(
                    (old_args.len() - (n - k)) as int,
                ),
                pviews.len() == n,
                forall|j: int| 0 <= j < k ==> params_rev@[j]@ == pviews[j],
                bound@.len() == n - k,
                forall|j: int|
                    0 <= j < n - k ==> (#[trigger] bound@[j]).0@ == pviews[n - 1 - j]
                        && bound@[j].1@ == old_args[old_args.len() - 1 - j],
                forall|j: int| 0 <= j < n - k ==> value_wf((#[trigger] bound@[j]).1@),
                self.registers == old(self).registers,
                self.stack == old(self).stack,
                self.program_counter == old(self).program_counter,
                self.instructions == old(self).instructions,
                self.labels == old(self).labels,
                self.function_addr_table == old(self).function_addr_table,
                self.pending == old(self).pending,
                old(self).inv(),
                old_args == old(self).argument_stack.deep_view(),
                args_wf(old_args),
                pviews == spec_assoc_get(old(self)@.functions, name@)->Some_0.params,
                self.argument_stack@.len() == old_args.len() - (n - k),
            decreases k,
        {
            let pname = match params_rev.pop() {
                Some(p) => p,
                None => {
                    proof {
                        assert(false);
                    }
                    return StepOutcome::Ran;
                },
            };
            let value = match self.argument_stack.pop() {
                Some(v) => v,
                None => {
                    proof {
                        assert(false);
                    }
                    return StepOutcome::Ran;
                },
            };
            proof {
                assert(old_args.take((old_args.len() - (n - k)) as int).last() == old_args[
                    old_args.len() - 1 - (n - k)]);
                assert(value_wf(old_args[old_args.len() - 1 - (n - k)]));
                assert(old_args.take((old_args.len() - (n - k)) as int).drop_last()
                    =~= old_args.take((old_args.len() - (n - (k - 1))) as int));
            }
            bound.push((pname, value));
            k = k - 1;
        }
        let mut args_list: Vec<(String, MiValue)> = Vec::new();
        let mut i: usize = bound.len();
        while i > 0
            invariant
                0 <= i <= bound@.len(),
                bound@.len() == n,
                n <= old_args.len(),
                pviews.len() == n,
                forall|j: int|
                    0 <= j < n ==> (#[trigger] bound@[j]).0@ == pviews[n - 1 - j] && bound@[j].1@
                        == old_args[old_args.len() - 1 - j],
                forall|j: int| 0 <= j < n ==> value_wf((#[trigger] bound@[j]).1@),
                args_list@.len() == n - i,
                forall|j: int|
                    0 <= j < n - i ==> (#[trigger] args_list@[j]).0@ == pviews[j]
                        && args_list@[j].1@ == old_args[old_args.len() - n + j],
                forall|j: int| 0 <= j < n - i ==> value_wf((#[trigger] args_list@[j]).1@),
            decreases i,
        {
            let idx = i - 1;
            let pair_name = bound[idx].0.clone();
            let pair_value = bound[idx].1.clone();
            args_list.push((pair_name, pair_value));
            i = idx;
        }
        let return_addr = (self.program_counter + 1) as usize;
        let frame = StackFrame::new(name, args_list, Some(return_addr), false, 0);
        proof {
            assert(frame_values_wf(frame@)) by {
                assert forall|j: int|
                    0 <= j < frame@.args.len() implies value_wf((#[trigger] frame@.args[j]).1) by {
                    assert(frame@.args[j].1 == args_list@[j].1@);
                }
            }
        }
        let pushed = self.stack.push_frame(frame);
        self.program_counter = real_label;
        match pushed {
            Ok(_) => {
                proof {
                    assert(final(self)@.stack.last().args =~= crate::maps::assoc_view(
                        args_list@,
                    ));
                    assert forall|i2: int|
                        0 <= i2 < pviews.len() && (forall|j: int|
                            i2 < j < pviews.len() ==> pviews[j] != pviews[i2])
                            implies spec_assoc_get(
                            final(self)@.stack.last().args,
                            #[trigger] pviews[i2],
                        ) == Some(old_args[old_args.len() - pviews.len() + i2]) by {
                        lemma_assoc_get_unique(
                            crate::maps::assoc_view(args_list@),
                            i2,
                        );
                    }
                    assert(final(self)@.argument_stack =~= old(self)@.argument_stack.take(
                        old(self)@.argument_stack.len() - pviews.len(),
                    ));
                }
                StepOutcome::Ran
            },
            Err(msg) => self.throw_step("StackOverflow", msg),
        }
    }
}

/// When no later binding shadows a key, lookup finds its binding.
proof fn lemma_assoc_get_unique<T>(s: Seq<(Seq<char>, T)>, i: int)
    requires
        0 <= i < s.len(),
        forall|j: int| i < j < s.len() ==> (#[trigger] s[j]).0 != s[i].0,
    ensures
        spec_assoc_get(s, s[i].0) == Some(s[i].1),
    decreases s.len(),
{
    if i == s.len() - 1 {
    } else {
        assert(s.last().0 != s[i].0);
        assert(s.drop_last()[i] == s[i]);
        lemma_assoc_get_unique(s.drop_last(), i);
    }
}

} // verus!
