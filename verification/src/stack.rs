//! The call stack: a bounded sequence of frames carrying bound arguments,
//! local variables, and a return address.

use vstd::prelude::*;
use crate::value::{MiValue, ValueView, value_wf};
use crate::maps::{assoc_view, assoc_get, assoc_insert, spec_assoc_get};
use vstd::string::StringExecFns;
use crate::numfmt::{u64_to_dec_string, spec_dec};
use crate::render::spec_to_string;

verus! {

/// One invocation record. `return_addr` is absent only on the outermost
/// frame. `handles_error` and `error_handling_addr` are a hook for error
/// handlers; no current instruction sets them.
#[derive(Debug)]
pub struct StackFrame {
    pub name: String,
    pub args: Vec<(String, MiValue)>,
    pub local_variables: Vec<(String, MiValue)>,
    pub return_addr: Option<usize>,
    pub handles_error: bool,
    pub error_handling_addr: usize,
}

/// The mathematical shape of a frame.
#[verifier::ext_equal]
pub ghost struct FrameView {
    pub name: Seq<char>,
    pub args: Seq<(Seq<char>, ValueView)>,
    pub locals: Seq<(Seq<char>, ValueView)>,
    pub return_addr: Option<usize>,
    pub handles_error: bool,
    pub error_handling_addr: usize,
}

impl View for StackFrame {
    type V = FrameView;

    open spec fn view(&self) -> FrameView {
        FrameView {
            name: self.name@,
            args: assoc_view(self.args@),
            locals: assoc_view(self.local_variables@),
            return_addr: self.return_addr,
            handles_error: self.handles_error,
            error_handling_addr: self.error_handling_addr,
        }
    }
}

impl StackFrame {
    /// A fresh frame with the given bindings and no local variables yet.
    pub fn new(
        name: String,
        args: Vec<(String, MiValue)>,
        return_addr: Option<usize>,
        handles_error: bool,
        error_handling_addr: usize,
    ) -> (r: StackFrame)
        ensures
            r@ == (FrameView {
                name: name@,
                args: assoc_view(args@),
                locals: Seq::<(Seq<char>, ValueView)>::empty(),
                return_addr,
                handles_error,
                error_handling_addr,
            }),
    {
        let r = StackFrame {
            name,
            args,
            local_variables: Vec::new(),
            return_addr,
            handles_error,
            error_handling_addr,
        };
        proof {
            assert(assoc_view(r.local_variables@) =~= Seq::<(Seq<char>, ValueView)>::empty());
        }
        r
    }

    /// The latest value bound to an argument name, if any.
    pub fn get_arg<'a>(&'a self, name: &String) -> (r: Option<&'a MiValue>)
        ensures
            match r {
                Some(v) => spec_assoc_get(self@.args, name@) == Some(v@),
                None => spec_assoc_get(self@.args, name@) is None,
            },
    {
        assoc_get(&self.args, name)
    }

    /// The latest value bound to a local variable name, if any.
    pub fn get_local<'a>(&'a self, name: &String) -> (r: Option<&'a MiValue>)
        ensures
            match r {
                Some(v) => spec_assoc_get(self@.locals, name@) == Some(v@),
                None => spec_assoc_get(self@.locals, name@) is None,
            },
    {
        assoc_get(&self.local_variables, name)
    }

    /// Binds a local variable name to a value; other bindings are unchanged.
    pub fn insert_local(&mut self, name: String, value: MiValue)
        ensures
            final(self)@ == (FrameView { locals: final(self)@.locals, ..old(self)@ }),
            spec_assoc_get(final(self)@.locals, name@) == Some(value@),
            forall|k2: Seq<char>|
                k2 != name@ ==> #[trigger] spec_assoc_get(final(self)@.locals, k2)
                    == spec_assoc_get(old(self)@.locals, k2),
            forall|i: int|
                0 <= i < final(self)@.locals.len() ==> ((#[trigger] final(self)@.locals[i]) == (
                name@,
                value@,
                ) || exists|j: int|
                    0 <= j < old(self)@.locals.len() && final(self)@.locals[i] == old(
                        self,
                    )@.locals[j]),
    {
        assoc_insert(&mut self.local_variables, name, value);
    }
}

/// Every value a frame binds satisfies the payload-length invariant.
pub open spec fn frame_values_wf(f: FrameView) -> bool {
    &&& forall|i: int| 0 <= i < f.args.len() ==> value_wf((#[trigger] f.args[i]).1)
    &&& forall|i: int| 0 <= i < f.locals.len() ==> value_wf((#[trigger] f.locals[i]).1)
}

/// The bounded frame stack; pushing past the bound fails.
#[derive(Debug)]
pub struct CallStack {
    max_size: usize,
    frames: Vec<StackFrame>,
}

impl View for CallStack {
    type V = Seq<FrameView>;

    closed spec fn view(&self) -> Seq<FrameView> {
        self.frames@.map_values(|f: StackFrame| f@)
    }
}

impl CallStack {
    /// The capacity the stack was made with.
    pub closed spec fn spec_max(&self) -> int {
        self.max_size as int
    }

    /// The stack is always configured with a capacity of 4000 frames.
    pub open spec fn wf(&self) -> bool {
        self.spec_max() == 4000
    }

    /// An empty stack with the fixed capacity of 4000 frames.
    pub fn new() -> (r: CallStack)
        ensures
            r.wf(),
            r@ =~= Seq::<FrameView>::empty(),
    {
        CallStack { max_size: 4000, frames: Vec::new() }
    }

    /// How many frames are on the stack.
    pub fn depth(&self) -> (r: usize)
        ensures
            r == self@.len(),
    {
        self.frames.len()
    }

    /// Pushes a frame. Fails exactly when the push would reach the capacity,
    /// leaving the stack unchanged.
    pub fn push_frame(&mut self, frame: StackFrame) -> (r: Result<(), String>)
        requires
            old(self).wf(),
        ensures
            final(self).wf(),
            r is Ok <==> old(self)@.len() + 1 < old(self).spec_max(),
            r is Ok ==> final(self)@ =~= old(self)@.push(frame@),
            r is Err ==> final(self)@ == old(self)@,
    {
        if self.frames.len() >= self.max_size - 1 {
            let mut message: String = String::from_str(
                "Call stack size exceeded the maximum limit of ",
            );
            message.append(crate::numfmt::u64_to_dec_string(self.max_size as u64).as_str());
            return Err(message);
        }
        self.frames.push(frame);
        Ok(())
    }

    /// Pops and returns the top frame, if any.
    pub fn pop_frame(&mut self) -> (r: Option<StackFrame>)
        requires
            old(self).wf(),
        ensures
            final(self).wf(),
            match r {
                Some(f) => old(self)@.len() > 0 && f@ == old(self)@.last() && final(self)@
                    =~= old(self)@.drop_last(),
                None => old(self)@.len() == 0 && final(self)@ == old(self)@,
            },
    {
        self.frames.pop()
    }

    /// A borrowed view of the top frame, if any.
    pub fn last_frame<'a>(&'a self) -> (r: Option<&'a StackFrame>)
        ensures
            match r {
                Some(f) => self@.len() > 0 && f@ == self@.last(),
                None => self@.len() == 0,
            },
    {
        if self.frames.len() == 0 {
            None
        } else {
            Some(&self.frames[self.frames.len() - 1])
        }
    }

    /// Binds a local variable in the top frame.
    pub fn top_insert_local(&mut self, name: String, value: MiValue)
        requires
            old(self).wf(),
            old(self)@.len() > 0,
        ensures
            final(self).wf(),
            final(self)@.len() == old(self)@.len(),
            forall|i: int| 0 <= i < old(self)@.len() - 1 ==> final(self)@[i] == old(self)@[i],
            final(self)@.last() == (FrameView { locals: final(self)@.last().locals, ..old(
                self,
            )@.last() }),
            spec_assoc_get(final(self)@.last().locals, name@) == Some(value@),
            forall|k2: Seq<char>|
                k2 != name@ ==> #[trigger] spec_assoc_get(final(self)@.last().locals, k2)
                    == spec_assoc_get(old(self)@.last().locals, k2),
            forall|i: int|
                0 <= i < final(self)@.last().locals.len() ==> ((#[trigger] final(self)@.last().locals[i])
                    == (name@, value@) || exists|j: int|
                    0 <= j < old(self)@.last().locals.len() && final(self)@.last().locals[i]
                        == old(self)@.last().locals[j]),
    {
        let popped = self.frames.pop();
        match popped {
            Some(mut f) => {
                f.insert_local(name, value);
                self.frames.push(f);
                proof {
                    assert(self@ =~= old(self)@.update(old(self)@.len() - 1, self@.last()));
                }
            },
            None => {
                proof {
                    assert(false);
                }
            },
        }
    }
}

/// Element-for-element equality of two binding lists.
pub fn bindings_equal(a: &Vec<(String, MiValue)>, b: &Vec<(String, MiValue)>) -> (r: bool)
    ensures
        r == (assoc_view(a@) == assoc_view(b@)),
{
    if a.len() != b.len() {
        assert(assoc_view(a@).len() != assoc_view(b@).len());
        return false;
    }
    let n = a.len();
    let mut i: usize = 0;
    while i < n
        invariant
            n == a@.len() == b@.len(),
            0 <= i <= n,
            forall|j: int| 0 <= j < i ==> assoc_view(a@)[j] == assoc_view(b@)[j],
        decreases n - i,
    {
        let keys_match = a[i].0 == b[i].0;
        let vals_match = a[i].1 == b[i].1;
        if !(keys_match && vals_match) {
            assert(assoc_view(a@)[i as int] != assoc_view(b@)[i as int]);
            return false;
        }
        assert(assoc_view(a@)[i as int] == assoc_view(b@)[i as int]);
        i += 1;
    }
    assert(assoc_view(a@) =~= assoc_view(b@));
    true
}

/// Structural equality of two frames.
pub fn frame_eq(a: &StackFrame, b: &StackFrame) -> (r: bool)
    ensures
        r == (a@ == b@),
{
    let names = a.name == b.name;
    let rets = match (a.return_addr, b.return_addr) {
        (Some(x), Some(y)) => x == y,
        (None, None) => true,
        _ => false,
    };
    let flags = a.handles_error == b.handles_error && a.error_handling_addr
        == b.error_handling_addr;
    if names && rets && flags && bindings_equal(&a.args, &b.args) && bindings_equal(
        &a.local_variables,
        &b.local_variables,
    ) {
        assert(a@ =~= b@);
        true
    } else {
        false
    }
}

/// One binding line of a rendered frame: tab-indented name and rendering.
pub open spec fn spec_binding_line(p: (Seq<char>, ValueView)) -> Seq<char> {
    "\t\t"@ + p.0 + ": "@ + spec_to_string(p.1) + "\n"@
}

/// The binding lines of a frame section, in binding order.
pub open spec fn spec_binding_lines(ps: Seq<(Seq<char>, ValueView)>) -> Seq<char>
    decreases ps.len(),
{
    if ps.len() == 0 {
        Seq::<char>::empty()
    } else {
        spec_binding_lines(ps.drop_last()) + spec_binding_line(ps.last())
    }
}

/// One rendered frame block: the frame's name, its arguments, its local
/// variables, and its return and error-handling addresses where present.
pub open spec fn spec_frame_block(f: FrameView) -> Seq<char> {
    "at "@ + f.name + "\n"@ + "\t- Arguments:\n"@ + spec_binding_lines(f.args)
        + "\t- Local Variables:\n"@ + spec_binding_lines(f.locals) + (match f.return_addr {
        Some(a) => "\t- Return Address: "@ + spec_dec(a as nat) + "\n"@,
        None => Seq::<char>::empty(),
    }) + (if f.handles_error {
        "\t- Error Handling Address: "@ + spec_dec(f.error_handling_addr as nat) + "\n"@
    } else {
        Seq::<char>::empty()
    })
}

/// The separator before a block: the previous run's repeat marker when it
/// repeats, then a blank line.
pub open spec fn spec_trail(count: int) -> Seq<char> {
    (if count > 1 {
        "\t<"@ + spec_dec(count as nat) + " times called>\n"@
    } else {
        Seq::<char>::empty()
    }) + "\n"@
}

/// The first `k` blocks of the plan, with their separators.
pub open spec fn spec_render_upto(frames: Seq<FrameView>, runs: Seq<(int, int)>, k: int) -> Seq<
    char,
>
    decreases k,
{
    if k <= 0 {
        Seq::<char>::empty()
    } else {
        spec_render_upto(frames, runs, k - 1) + (if k - 1 > 0 {
            spec_trail(runs[k - 2].1)
        } else {
            Seq::<char>::empty()
        }) + (if 0 <= runs[k - 1].0 < frames.len() {
            spec_frame_block(frames[runs[k - 1].0])
        } else {
            Seq::<char>::empty()
        })
    }
}

/// The whole rendered backtrace: every planned block, and a final repeat
/// marker when the last run repeats.
pub open spec fn spec_backtrace(frames: Seq<FrameView>) -> Seq<char> {
    let runs = spec_runs(frames);
    spec_render_upto(frames, runs, runs.len() as int) + (if runs.len() > 0 && runs.last().1 > 1 {
        " <"@ + spec_dec(runs.last().1 as nat) + " times called>"@
    } else {
        Seq::<char>::empty()
    })
}

/// The integer shape of a run plan entry: a frame index and a repeat
/// count.
pub open spec fn runs_view(s: Seq<(usize, usize)>) -> Seq<(int, int)> {
    s.map_values(|p: (usize, usize)| (p.0 as int, p.1 as int))
}

/// The scanner state of the run-length plan: walking frames innermost-out,
/// coalescing equal consecutive frames, stopping once 8 blocks exist.
pub open spec fn spec_runs_loop(frames: Seq<FrameView>, seen: int, acc: Seq<(int, int)>) -> Seq<
    (int, int),
>
    decreases frames.len() - seen,
{
    if seen < 0 || seen >= frames.len() || acc.len() >= 8 {
        acc
    } else {
        let fi = frames.len() - 1 - seen;
        if acc.len() > 0 && 0 <= acc.last().0 < frames.len() && frames[fi] == frames[acc.last().0] {
            let c = acc.last().1;
            let c2 = if c < usize::MAX {
                c + 1
            } else {
                c
            };
            spec_runs_loop(
                frames,
                seen + 1,
                acc.update(acc.len() - 1, (acc.last().0, c2)),
            )
        } else {
            spec_runs_loop(frames, seen + 1, acc.push((fi, 1)))
        }
    }
}

/// The backtrace plan of a frame stack.
pub open spec fn spec_runs(frames: Seq<FrameView>) -> Seq<(int, int)> {
    spec_runs_loop(frames, 0, Seq::<(int, int)>::empty())
}

/// The plan never grows past 8 blocks: rendering never shows more than 8
/// distinct frames, whatever the stack's depth.
pub proof fn lemma_runs_capped(frames: Seq<FrameView>)
    ensures
        spec_runs(frames).len() <= 8,
{
    lemma_runs_loop_capped(frames, 0, Seq::<(int, int)>::empty());
}

proof fn lemma_runs_loop_capped(frames: Seq<FrameView>, seen: int, acc: Seq<(int, int)>)
    requires
        acc.len() <= 8,
    ensures
        spec_runs_loop(frames, seen, acc).len() <= 8,
    decreases frames.len() - seen,
{
    if seen < 0 || seen >= frames.len() || acc.len() >= 8 {
    } else {
        let fi = frames.len() - 1 - seen;
        if acc.len() > 0 && 0 <= acc.last().0 < frames.len() && frames[fi] == frames[acc.last().0] {
            let c = acc.last().1;
            let c2 = if c < usize::MAX {
                c + 1
            } else {
                c
            };
            lemma_runs_loop_capped(
                frames,
                seen + 1,
                acc.update(acc.len() - 1, (acc.last().0, c2)),
            );
        } else {
            lemma_runs_loop_capped(frames, seen + 1, acc.push((fi, 1)));
        }
    }
}

/// Appends one rendered frame block.
#[verifier::rlimit(100)]
fn render_frame_block(backtrace: &mut String, frame: &StackFrame)
    requires
        frame_values_wf(frame@),
    ensures
        final(backtrace)@ == old(backtrace)@ + spec_frame_block(frame@),
{
    let ghost base = backtrace@;
        backtrace.append("at ");
    backtrace.append(frame.name.as_str());
    backtrace.append("\n");
    backtrace.append("\t- Arguments:\n");
    let ghost amark = backtrace@;
    proof {
        assert(amark + spec_binding_lines(frame@.args.take(0)) =~= amark);
    }
    let an = frame.args.len();
    let mut ai: usize = 0;
    while ai < an
        invariant
            an == frame.args@.len(),
            frame@.args.len() == an,
            0 <= ai <= an,
            frame_values_wf(frame@),
            backtrace@ == amark + spec_binding_lines(frame@.args.take(ai as int)),
        decreases an - ai,
    {
        let ghost lbase = backtrace@;
        backtrace.append("\t\t");
        backtrace.append(frame.args[ai].0.as_str());
        backtrace.append(": ");
        proof {
            assert(frame@.args[ai as int] == (
        frame.args@[ai as int].0@,
        frame.args@[ai as int].1@,
            ));
            assert(value_wf(frame@.args[ai as int].1));
        }
        backtrace.append(frame.args[ai].1.to_string().as_str());
        backtrace.append("\n");
        proof {
            assert(frame@.args.take(ai + 1).drop_last() =~= frame@.args.take(ai as int));
            assert(frame@.args.take(ai + 1).last() == frame@.args[ai as int]);
            assert(backtrace@ =~= lbase + spec_binding_line(frame@.args[ai as int]));
            assert(backtrace@ =~= amark + spec_binding_lines(frame@.args.take(ai + 1)));
        }
        ai += 1;
    }
    proof {
        assert(frame@.args.take(an as int) =~= frame@.args);
    }
    backtrace.append("\t- Local Variables:\n");
    let ghost lmark = backtrace@;
    proof {
        assert(lmark + spec_binding_lines(frame@.locals.take(0)) =~= lmark);
    }
    let ln = frame.local_variables.len();
    let mut li: usize = 0;
    while li < ln
        invariant
            ln == frame.local_variables@.len(),
            frame@.locals.len() == ln,
            0 <= li <= ln,
            frame_values_wf(frame@),
            backtrace@ == lmark + spec_binding_lines(frame@.locals.take(li as int)),
        decreases ln - li,
    {
        let ghost lbase = backtrace@;
        backtrace.append("\t\t");
        backtrace.append(frame.local_variables[li].0.as_str());
        backtrace.append(": ");
        proof {
            assert(frame@.locals[li as int] == (
        frame.local_variables@[li as int].0@,
        frame.local_variables@[li as int].1@,
            ));
            assert(value_wf(frame@.locals[li as int].1));
        }
        backtrace.append(frame.local_variables[li].1.to_string().as_str());
        backtrace.append("\n");
        proof {
            assert(frame@.locals.take(li + 1).drop_last() =~= frame@.locals.take(
        li as int,
            ));
            assert(frame@.locals.take(li + 1).last() == frame@.locals[li as int]);
            assert(backtrace@ =~= lbase + spec_binding_line(frame@.locals[li as int]));
            assert(backtrace@ =~= lmark + spec_binding_lines(frame@.locals.take(li + 1)));
        }
        li += 1;
    }
    proof {
        assert(frame@.locals.take(ln as int) =~= frame@.locals);
    }
    match frame.return_addr {
        Some(addr) => {
            backtrace.append("\t- Return Address: ");
            backtrace.append(u64_to_dec_string(addr as u64).as_str());
            backtrace.append("\n");
        },
        None => {},
    }
    if frame.handles_error {
        backtrace.append("\t- Error Handling Address: ");
        backtrace.append(u64_to_dec_string(frame.error_handling_addr as u64).as_str());
        backtrace.append("\n");
    }
    proof {
        assert(backtrace@ =~= base + spec_frame_block(frame@));
    }
}

impl CallStack {
    /// The coalesced backtrace plan: for each rendered block, the frame's
    /// index and how many times it repeats consecutively; exactly the plan
    /// `spec_runs` draws, so rendering never shows more than 8 distinct
    /// frames.
    pub fn backtrace_runs(&self) -> (r: Vec<(usize, usize)>)
        ensures
            runs_view(r@) == spec_runs(self@),
            r@.len() <= 8,
            forall|i: int| 0 <= i < r@.len() ==> (#[trigger] r@[i]).0 < self@.len(),
    {
        proof {
            lemma_runs_capped(self@);
        }
        let mut runs: Vec<(usize, usize)> = Vec::new();
        let total = self.frames.len();
        let mut seen: usize = 0;
        proof {
            assert(runs_view(runs@) =~= Seq::<(int, int)>::empty());
        }
        while seen < total
            invariant
                total == self@.len(),
                total == self.frames@.len(),
                0 <= seen <= total,
                runs@.len() <= 8,
                forall|i: int| 0 <= i < runs@.len() ==> (#[trigger] runs@[i]).0 < total,
                runs@.len() == 0 ==> seen == 0,
                spec_runs(self@) == spec_runs_loop(self@, seen as int, runs_view(runs@)),
            ensures
                spec_runs(self@) == runs_view(runs@),
                runs@.len() <= 8,
                forall|i: int| 0 <= i < runs@.len() ==> (#[trigger] runs@[i]).0 < total,
            decreases total - seen,
        {
            if runs.len() >= 8 {
                break;
            }
            let ghost rv0 = runs_view(runs@);
            let fi = total - 1 - seen;
            let rlen = runs.len();
            if rlen > 0 {
                let (prev_fi, prev_count) = runs[rlen - 1];
                if frame_eq(&self.frames[fi], &self.frames[prev_fi]) {
                    proof {
                        assert(self@[fi as int] == self.frames@[fi as int]@);
                        assert(self@[prev_fi as int] == self.frames@[prev_fi as int]@);
                    }
                    if prev_count < usize::MAX {
                        runs[rlen - 1] = (prev_fi, prev_count + 1);
                    }
                    proof {
                        assert(runs_view(runs@) =~= rv0.update(
                            rv0.len() - 1,
                            (
                                rv0.last().0,
                                if rv0.last().1 < usize::MAX {
                                    rv0.last().1 + 1
                                } else {
                                    rv0.last().1
                                },
                            ),
                        ));
                    }
                    seen += 1;
                    continue;
                }
                proof {
                    assert(self@[fi as int] == self.frames@[fi as int]@);
                    assert(self@[prev_fi as int] == self.frames@[prev_fi as int]@);
                }
            }
            runs.push((fi, 1));
            proof {
                assert(runs_view(runs@) =~= rv0.push((fi as int, 1int)));
            }
            seen += 1;
        }
        runs
    }

    /// Renders the backtrace: exactly the string `spec_backtrace` spells —
    /// the frames from innermost outward, runs of equal consecutive frames
    /// coalesced, capped at 8 distinct frames.
    #[verifier::rlimit(100)]
    pub fn get_backtrace_string(&self) -> (r: String)
        requires
            forall|i: int| 0 <= i < self@.len() ==> frame_values_wf(#[trigger] self@[i]),
        ensures
            r@ == spec_backtrace(self@),
    {
        let runs = self.backtrace_runs();
        let ghost fv = self@;
        let ghost rv = runs_view(runs@);
        let mut backtrace = String::new();
        let n = runs.len();
        let mut k: usize = 0;
        proof {
            assert(backtrace@ =~= spec_render_upto(fv, rv, 0));
        }
        while k < n
            invariant
                n == runs@.len(),
                fv == self@,
                rv == runs_view(runs@),
                rv == spec_runs(self@),
                0 <= k <= n,
                forall|i: int| 0 <= i < runs@.len() ==> (#[trigger] runs@[i]).0 < self@.len(),
                forall|i: int| 0 <= i < self@.len() ==> frame_values_wf(#[trigger] self@[i]),
                backtrace@ == spec_render_upto(fv, rv, k as int),
            decreases n - k,
        {
            let ghost base0 = backtrace@;
            if k > 0 {
                let (_, prev_count) = runs[k - 1];
                if prev_count > 1 {
                    backtrace.append("\t<");
                    backtrace.append(u64_to_dec_string(prev_count as u64).as_str());
                    backtrace.append(" times called>\n");
                }
                backtrace.append("\n");
                proof {
                    assert(backtrace@ =~= base0 + spec_trail(rv[k - 1].1));
                }
            }
            let ghost base = backtrace@;
            proof {
                if k > 0 {
                    assert(base == base0 + spec_trail(rv[k - 1].1));
                } else {
                    assert(base == base0);
                }
            }
            let (fi, _) = runs[k];
            let frame = &self.frames[fi];
            proof {
                assert(frame@ == fv[fi as int]);
                assert(frame_values_wf(frame@));
            }
            render_frame_block(&mut backtrace, frame);
            proof {
                assert(backtrace@ =~= spec_render_upto(fv, rv, k + 1));
            }
            k += 1;
        }
        if n > 0 {
            let (_, last_count) = runs[n - 1];
            if last_count > 1 {
                backtrace.append(" <");
                backtrace.append(u64_to_dec_string(last_count as u64).as_str());
                backtrace.append(" times called>");
            }
        }
        proof {
            assert(backtrace@ =~= spec_backtrace(self@));
        }
        backtrace
    }
}

} // verus!
