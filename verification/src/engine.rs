use crate::opcode::{Action, ExecFault, OpCode, RunStatus};
use crate::parser::{ends, starts, well_bracketed};
use crate::tape::{op_outcome, zero_tape, BfArray, ByteSource};
use vstd::prelude::*;

verus! {

/// The whole state of one run: the tape, the two byte channels, the
/// instruction pointer, the jump stack, and how the run stands.
#[verifier::ext_equal]
pub ghost struct ExecState {
    pub cells: Seq<u8>,
    pub cursor: int,
    pub ip: int,
    pub jumps: Seq<usize>,
    pub input: Seq<u8>,
    pub output: Seq<u8>,
    pub status: RunStatus,
}

/// Index of the loop end that closes the scan begun at `i` with `depth`
/// starts still open, or nothing if the scan runs off the program.
pub open spec fn scan_close(ops: Seq<OpCode>, i: int, depth: nat) -> Option<int>
    decreases ops.len() - i,
{
    if i < 0 || i >= ops.len() {
        None
    } else if ops[i] is JmpEnd {
        if depth == 0 {
            Some(i)
        } else {
            scan_close(ops, i + 1, (depth - 1) as nat)
        }
    } else if ops[i] is JmpStart {
        scan_close(ops, i + 1, depth + 1)
    } else {
        scan_close(ops, i + 1, depth)
    }
}

/// One step of the machine: perform the instruction under the
/// instruction pointer, then the jump and stack bookkeeping. Terminal
/// states map to themselves; a pointer past the end halts the run.
pub open spec fn step_spec(ops: Seq<OpCode>, s: ExecState) -> ExecState {
    if !(s.status is Running) {
        s
    } else if !(0 <= s.ip < ops.len()) {
        ExecState { status: RunStatus::Halted, ..s }
    } else {
        let op = ops[s.ip];
        let o = op_outcome(op, s.cells, s.cursor, s.input);
        let moved = ExecState {
            cells: o.cells,
            cursor: o.cursor,
            input: o.input,
            output: s.output + o.emitted,
            ..s
        };
        match o.action {
            Action::Exit(f) => ExecState { status: RunStatus::Faulted(f), ..moved },
            Action::JumpForward => match scan_close(ops, s.ip + 1, 0) {
                Some(j) => ExecState { ip: j + 1, ..moved },
                // never reached on a well-bracketed program
                None => arbitrary(),
            },
            Action::JumpBack => if s.jumps.len() == 0 {
                ExecState { status: RunStatus::Faulted(ExecFault::JumpStackEmpty), ..moved }
            } else {
                ExecState { ip: s.jumps.last() as int, ..moved }
            },
            Action::Proceed => match op {
                OpCode::JmpStart => ExecState {
                    jumps: s.jumps.push((s.ip + 1) as usize),
                    ip: s.ip + 1,
                    ..moved
                },
                OpCode::JmpEnd => if s.jumps.len() == 0 {
                    ExecState { status: RunStatus::Faulted(ExecFault::JumpStackEmpty), ..moved }
                } else {
                    ExecState { jumps: s.jumps.drop_last(), ip: s.ip + 1, ..moved }
                },
                _ => ExecState { ip: s.ip + 1, ..moved },
            },
        }
    }
}

/// The machine after `n` steps.
pub open spec fn run_spec(ops: Seq<OpCode>, s: ExecState, n: nat) -> ExecState
    decreases n,
{
    if n == 0 {
        s
    } else {
        step_spec(ops, run_spec(ops, s, (n - 1) as nat))
    }
}

/// A run that has ended is terminal: once the status is no longer
/// running, further machine steps change nothing, so no side effect
/// follows a fault or a halt.
pub proof fn lemma_terminal_states_stand(ops: Seq<OpCode>, s: ExecState, n: nat)
    requires
        !(s.status is Running),
    ensures
        run_spec(ops, s, n) == s,
    decreases n,
{
    if n > 0 {
        lemma_terminal_states_stand(ops, s, (n - 1) as nat);
    }
}

/// Loop-tag counts split over a concatenation.
proof fn lemma_counts_concat(a: Seq<OpCode>, b: Seq<OpCode>)
    ensures
        starts(a + b) == starts(a) + starts(b),
        ends(a + b) == ends(a) + ends(b),
    decreases b.len(),
{
    if b.len() == 0 {
        assert(a + b =~= a);
    } else {
        lemma_counts_concat(a, b.drop_last());
        assert((a + b).drop_last() =~= a + b.drop_last());
        assert((a + b).last() == b.last());
    }
}

/// Loop-tag counts of a one-instruction sequence.
proof fn lemma_counts_singleton(x: OpCode)
    ensures
        starts(seq![x]) == if x is JmpStart {
            1nat
        } else {
            0nat
        },
        ends(seq![x]) == if x is JmpEnd {
            1nat
        } else {
            0nat
        },
{
    assert(seq![x].drop_last() =~= Seq::<OpCode>::empty());
    assert(starts(Seq::<OpCode>::empty()) == 0);
    assert(ends(Seq::<OpCode>::empty()) == 0);
    assert(seq![x].last() == x);
}

/// A scan whose suffix still holds more closing than opening tags, over
/// and above the open depth, finds its close.
proof fn lemma_scan_close_exists(ops: Seq<OpCode>, i: int, depth: nat)
    requires
        0 <= i <= ops.len(),
        ends(ops.skip(i)) >= starts(ops.skip(i)) + depth + 1,
    ensures
        scan_close(ops, i, depth) is Some,
    decreases ops.len() - i,
{
    let rest = ops.skip(i);
    if rest.len() == 0 {
        assert(ends(rest) == 0);
    } else {
        assert(i < ops.len());
        assert(rest =~= seq![ops[i]] + ops.skip(i + 1));
        lemma_counts_concat(seq![ops[i]], ops.skip(i + 1));
        lemma_counts_singleton(ops[i]);
        assert(starts(rest) == starts(seq![ops[i]]) + starts(ops.skip(i + 1)));
        assert(ends(rest) == ends(seq![ops[i]]) + ends(ops.skip(i + 1)));
        if ops[i] is JmpEnd {
            if depth > 0 {
                assert(ends(ops.skip(i + 1)) >= starts(ops.skip(i + 1)) + (depth - 1) + 1);
                lemma_scan_close_exists(ops, i + 1, (depth - 1) as nat);
            }
        } else if ops[i] is JmpStart {
            assert(ends(ops.skip(i + 1)) >= starts(ops.skip(i + 1)) + (depth + 1) + 1);
            lemma_scan_close_exists(ops, i + 1, depth + 1);
        } else {
            assert(ends(ops.skip(i + 1)) >= starts(ops.skip(i + 1)) + depth + 1);
            lemma_scan_close_exists(ops, i + 1, depth);
        }
    }
}

/// A found close lies in the program, at or after the scan's start, and
/// is a loop end.
proof fn lemma_scan_close_props(ops: Seq<OpCode>, i: int, depth: nat)
    requires
        scan_close(ops, i, depth) is Some,
    ensures
        i <= scan_close(ops, i, depth)->Some_0 < ops.len(),
        ops[scan_close(ops, i, depth)->Some_0] is JmpEnd,
    decreases ops.len() - i,
{
    if ops[i] is JmpEnd {
        if depth > 0 {
            lemma_scan_close_props(ops, i + 1, (depth - 1) as nat);
        }
    } else if ops[i] is JmpStart {
        lemma_scan_close_props(ops, i + 1, depth + 1);
    } else {
        lemma_scan_close_props(ops, i + 1, depth);
    }
}

/// In a well-bracketed program, the scan begun just after a loop start
/// finds the matching loop end: the parser's validation is exactly what
/// keeps the engine's forward jump inside the program.
pub proof fn lemma_jump_start_has_close(ops: Seq<OpCode>, i: int)
    requires
        well_bracketed(ops),
        0 <= i < ops.len(),
        ops[i] is JmpStart,
    ensures
        scan_close(ops, i + 1, 0) is Some,
        i < scan_close(ops, i + 1, 0)->Some_0 < ops.len(),
        ops[scan_close(ops, i + 1, 0)->Some_0] is JmpEnd,
{
    assert(ops =~= ops.take(i + 1) + ops.skip(i + 1));
    lemma_counts_concat(ops.take(i + 1), ops.skip(i + 1));
    assert(ops.take(i + 1).drop_last() =~= ops.take(i));
    assert(ops.take(i + 1).last() == ops[i]);
    assert(ends(ops.take(i)) <= starts(ops.take(i)));
    assert(ends(ops.take(i + 1)) <= starts(ops.take(i + 1)) - 1);
    lemma_scan_close_exists(ops, i + 1, 0);
    lemma_scan_close_props(ops, i + 1, 0);
}

/// Unmatched loop starts before position `p`: the nesting depth the
/// machine is at when its instruction pointer stands there.
pub open spec fn depth_at(ops: Seq<OpCode>, p: int) -> int {
    starts(ops.take(p)) - ends(ops.take(p))
}

/// How the nesting depth changes across one instruction.
proof fn lemma_depth_step(ops: Seq<OpCode>, p: int)
    requires
        0 <= p < ops.len(),
    ensures
        depth_at(ops, p + 1) == depth_at(ops, p) + if ops[p] is JmpStart {
            1int
        } else if ops[p] is JmpEnd {
            -1int
        } else {
            0int
        },
{
    assert(ops.take(p + 1).drop_last() =~= ops.take(p));
    assert(ops.take(p + 1).last() == ops[p]);
}

/// In a well-bracketed program every loop end stands at positive depth.
proof fn lemma_close_has_depth(ops: Seq<OpCode>, p: int)
    requires
        well_bracketed(ops),
        0 <= p < ops.len(),
        ops[p] is JmpEnd,
    ensures
        depth_at(ops, p) >= 1,
{
    lemma_depth_step(ops, p);
    assert(ends(ops.take(p + 1)) <= starts(ops.take(p + 1)));
}

/// A forward scan lands just past a loop end one level below the depth
/// it started from.
proof fn lemma_scan_close_depth(ops: Seq<OpCode>, i: int, d: nat)
    requires
        0 <= i,
        scan_close(ops, i, d) is Some,
    ensures
        ({
            let j = scan_close(ops, i, d)->Some_0;
            &&& i <= j < ops.len()
            &&& ops[j] is JmpEnd
            &&& depth_at(ops, j + 1) == depth_at(ops, i) - d - 1
        }),
    decreases ops.len() - i,
{
    lemma_depth_step(ops, i);
    if ops[i] is JmpEnd {
        if d > 0 {
            lemma_scan_close_depth(ops, i + 1, (d - 1) as nat);
        }
    } else if ops[i] is JmpStart {
        lemma_scan_close_depth(ops, i + 1, d + 1);
    } else {
        lemma_scan_close_depth(ops, i + 1, d);
    }
}

/// What execution preserves: the instruction pointer stays inside the
/// program (one past the end included), the jump stack is exactly as
/// tall as the nesting depth there, and the target recorded i-th from
/// the bottom stands at depth i + 1.
pub open spec fn stack_invariant(ops: Seq<OpCode>, s: ExecState) -> bool {
    &&& 0 <= s.ip <= ops.len()
    &&& s.jumps.len() == depth_at(ops, s.ip)
    &&& forall|i: int|
        0 <= i < s.jumps.len() ==> 0 <= #[trigger] s.jumps[i] <= ops.len() && depth_at(
            ops,
            s.jumps[i] as int,
        ) == i + 1
}

/// One machine step keeps the invariant, and from a state that holds it
/// the step never wants for a recorded jump target.
proof fn lemma_step_preserves_invariant(ops: Seq<OpCode>, s: ExecState)
    requires
        well_bracketed(ops),
        ops.len() <= usize::MAX,
        stack_invariant(ops, s),
        s.status != RunStatus::Faulted(ExecFault::JumpStackEmpty),
    ensures
        stack_invariant(ops, step_spec(ops, s)),
        step_spec(ops, s).status != RunStatus::Faulted(ExecFault::JumpStackEmpty),
{
    if s.status is Running && 0 <= s.ip < ops.len() {
        let op = ops[s.ip];
        let o = op_outcome(op, s.cells, s.cursor, s.input);
        let t = step_spec(ops, s);
        lemma_depth_step(ops, s.ip);
        match op {
            OpCode::JmpStart => {
                if s.cells[s.cursor] == 0 {
                    lemma_jump_start_has_close(ops, s.ip);
                    lemma_scan_close_depth(ops, s.ip + 1, 0);
                } else {
                    assert forall|i: int| 0 <= i < t.jumps.len() implies 0 <= #[trigger] t.jumps[i]
                        <= ops.len() && depth_at(ops, t.jumps[i] as int) == i + 1 by {
                        if i < s.jumps.len() {
                            assert(t.jumps[i] == s.jumps[i]);
                        } else {
                            assert(t.jumps[i] == (s.ip + 1) as usize);
                        }
                    }
                }
            },
            OpCode::JmpEnd => {
                lemma_close_has_depth(ops, s.ip);
                assert(s.jumps.len() >= 1);
            },
            _ => {},
        }
    }
}

/// The invariant holds along every run begun in a state that has it, so
/// such a run never fails for want of a recorded jump target.
pub proof fn lemma_run_keeps_invariant(ops: Seq<OpCode>, s: ExecState, n: nat)
    requires
        well_bracketed(ops),
        ops.len() <= usize::MAX,
        stack_invariant(ops, s),
        s.status != RunStatus::Faulted(ExecFault::JumpStackEmpty),
    ensures
        stack_invariant(ops, run_spec(ops, s, n)),
        run_spec(ops, s, n).status != RunStatus::Faulted(ExecFault::JumpStackEmpty),
    decreases n,
{
    if n > 0 {
        lemma_run_keeps_invariant(ops, s, (n - 1) as nat);
        lemma_step_preserves_invariant(ops, run_spec(ops, s, (n - 1) as nat));
    }
}

/// A fresh state satisfies the engine invariant.
proof fn lemma_fresh_state_invariant(ops: Seq<OpCode>, s: ExecState)
    requires
        s.ip == 0,
        s.jumps.len() == 0,
    ensures
        stack_invariant(ops, s),
{
    assert(ops.take(0) =~= Seq::<OpCode>::empty());
    assert(starts(Seq::<OpCode>::empty()) == 0);
    assert(ends(Seq::<OpCode>::empty()) == 0);
}

/// On a well-bracketed program, a run begun at the first instruction
/// with an empty jump stack can never meet the jump-stack fault: every
/// loop end it performs has its return target recorded.
pub proof fn lemma_fresh_run_never_underflows(ops: Seq<OpCode>, s: ExecState, n: nat)
    requires
        well_bracketed(ops),
        ops.len() <= usize::MAX,
        s.ip == 0,
        s.jumps.len() == 0,
        s.status is Running,
    ensures
        run_spec(ops, s, n).status != RunStatus::Faulted(ExecFault::JumpStackEmpty),
{
    lemma_fresh_state_invariant(ops, s);
    lemma_run_keeps_invariant(ops, s, n);
}

/// A run begun fresh that halts normally leaves the jump stack empty:
/// every recorded return target was popped again.
pub proof fn lemma_normal_halt_leaves_empty_stack(ops: Seq<OpCode>, s: ExecState, n: nat)
    requires
        well_bracketed(ops),
        ops.len() <= usize::MAX,
        s.ip == 0,
        s.jumps.len() == 0,
        s.status is Running,
        run_spec(ops, s, n).status is Halted,
    ensures
        run_spec(ops, s, n).jumps.len() == 0,
{
    lemma_fresh_state_invariant(ops, s);
    lemma_run_keeps_invariant(ops, s, n);
    let t = run_spec(ops, s, n);
    lemma_halted_at_end(ops, s, n);
    assert(ops.take(ops.len() as int) =~= ops);
}

/// A halted run's instruction pointer stands exactly one past the end.
proof fn lemma_halted_at_end(ops: Seq<OpCode>, s: ExecState, n: nat)
    requires
        well_bracketed(ops),
        ops.len() <= usize::MAX,
        stack_invariant(ops, s),
        s.status is Running,
        run_spec(ops, s, n).status is Halted,
    ensures
        run_spec(ops, s, n).ip == ops.len(),
    decreases n,
{
    if n > 0 {
        let prev = run_spec(ops, s, (n - 1) as nat);
        lemma_run_keeps_invariant(ops, s, (n - 1) as nat);
        if prev.status is Halted {
            lemma_halted_at_end(ops, s, (n - 1) as nat);
        } else {
            assert(step_spec(ops, prev).status is Halted);
            if prev.status is Running && 0 <= prev.ip < ops.len() {
                let op = ops[prev.ip];
                if op is JmpStart && prev.cells[prev.cursor] == 0 {
                    lemma_jump_start_has_close(ops, prev.ip);
                }
                assert(!(step_spec(ops, prev).status is Halted));
            }
        }
    }
}

/// The execution engine: it owns the tape, the parsed program, the jump
/// stack of return targets, and the instruction pointer.
pub struct Interpreter {
    pub inner: BfArray,
    pub ops: Vec<OpCode>,
    pub jump_stack: Vec<usize>,
    pub pointer: usize,
}

impl Interpreter {
    pub open spec fn wf(&self) -> bool {
        self.inner.wf() && well_bracketed(self.ops@)
    }

    /// The engine's part of the run state, joined with the byte
    /// channels it is driven against.
    pub open spec fn state(&self, input: Seq<u8>, output: Seq<u8>, status: RunStatus) -> ExecState {
        ExecState {
            cells: self.inner.raw@,
            cursor: self.inner.pointer as int,
            ip: self.pointer as int,
            jumps: self.jump_stack@,
            input,
            output,
            status,
        }
    }

    /// A fresh engine for a parsed program: fresh tape, empty jump
    /// stack, instruction pointer at the first instruction.
    pub fn new(ops: Vec<OpCode>) -> (r: Self)
        requires
            well_bracketed(ops@),
        ensures
            r.wf(),
            r.ops@ == ops@,
            r.pointer == 0,
            r.jump_stack@ == Seq::<usize>::empty(),
            r.inner.pointer == 0,
            r.inner.raw@ == zero_tape(),
    {
        Interpreter { inner: BfArray::new(), ops, jump_stack: Vec::new(), pointer: 0 }
    }

    /// Advance the instruction pointer by one.
    pub fn increment_pointer(&mut self)
        requires
            old(self).pointer < usize::MAX,
        ensures
            final(self).pointer == old(self).pointer + 1,
            final(self).inner == old(self).inner,
            final(self).ops == old(self).ops,
            final(self).jump_stack == old(self).jump_stack,
    {
        self.pointer = self.pointer + 1;
    }

    /// Skip forward from a loop start whose cell was zero to one past
    /// the matching loop end. The scan cannot run off the program: the
    /// parser's validation guarantees the matching end exists.
    pub fn jmp_forward(&mut self)
        requires
            old(self).wf(),
            old(self).pointer < old(self).ops@.len(),
            old(self).ops@[old(self).pointer as int] is JmpStart,
        ensures
            final(self).wf(),
            final(self).inner == old(self).inner,
            final(self).ops == old(self).ops,
            final(self).jump_stack == old(self).jump_stack,
            ({
                let sc = scan_close(old(self).ops@, old(self).pointer + 1, 0);
                sc is Some && final(self).pointer == sc->Some_0 + 1
            }),
    {
        proof {
            lemma_jump_start_has_close(self.ops@, self.pointer as int);
            assert(self.ops.len() == self.ops@.len());
        }
        let ghost ops = self.ops@;
        let ghost target = scan_close(ops, self.pointer as int + 1, 0);
        let mut depth: usize = 0;
        self.increment_pointer();
        loop
            invariant
                self.inner == old(self).inner,
                self.ops == old(self).ops,
                self.jump_stack == old(self).jump_stack,
                self.ops@ == ops,
                ops.len() <= usize::MAX,
                0 < self.pointer <= ops.len(),
                depth <= self.pointer,
                target is Some,
                target->Some_0 < ops.len(),
                scan_close(ops, self.pointer as int, depth as nat) == target,
            ensures
                self.inner == old(self).inner,
                self.ops == old(self).ops,
                self.jump_stack == old(self).jump_stack,
                self.ops@ == ops,
                target is Some,
                self.pointer == target->Some_0,
                self.pointer < ops.len(),
                ops.len() <= usize::MAX,
            decreases ops.len() - self.pointer,
        {
            let op = self.ops[self.pointer];
            match op {
                OpCode::JmpStart => {
                    depth = depth + 1;
                },
                OpCode::JmpEnd => {
                    if depth == 0 {
                        break ;
                    }
                    depth = depth - 1;
                },
                _ => {},
            }
            self.increment_pointer();
        }
        self.increment_pointer();
    }

    /// Run exactly one instruction: dispatch on the tag, then the jump
    /// resolution, stack bookkeeping and advance that the returned
    /// action asks for. The whole effect is one `step_spec` step.
    pub fn step(&mut self, out: &mut Vec<u8>, inp: &mut ByteSource) -> (st: RunStatus)
        requires
            old(self).wf(),
            old(inp).wf(),
        ensures
            final(self).wf(),
            final(inp).wf(),
            final(self).ops == old(self).ops,
            final(self).state(final(inp).remaining(), final(out)@, st) == step_spec(
                old(self).ops@,
                old(self).state(old(inp).remaining(), old(out)@, RunStatus::Running),
            ),
    {
        let ghost pre = old(self).state(old(inp).remaining(), old(out)@, RunStatus::Running);
        if self.pointer >= self.ops.len() {
            proof {
                assert(self.state(inp.remaining(), out@, RunStatus::Halted) =~= step_spec(
                    self.ops@,
                    pre,
                ));
            }
            return RunStatus::Halted;
        }
        let op = self.ops[self.pointer];
        let a = self.inner.perform_operation(&op, out, inp);
        match a {
            Action::Exit(f) => {
                proof {
                    assert(self.state(inp.remaining(), out@, RunStatus::Faulted(f)) =~= step_spec(
                        self.ops@,
                        pre,
                    ));
                }
                RunStatus::Faulted(f)
            },
            Action::JumpForward => {
                self.jmp_forward();
                proof {
                    assert(self.state(inp.remaining(), out@, RunStatus::Running) =~= step_spec(
                        self.ops@,
                        pre,
                    ));
                }
                RunStatus::Running
            },
            Action::JumpBack => {
                if self.jump_stack.len() == 0 {
                    proof {
                        assert(self.state(
                            inp.remaining(),
                            out@,
                            RunStatus::Faulted(ExecFault::JumpStackEmpty),
                        ) =~= step_spec(self.ops@, pre));
                    }
                    RunStatus::Faulted(ExecFault::JumpStackEmpty)
                } else {
                    let t = self.jump_stack[self.jump_stack.len() - 1];
                    self.pointer = t;
                    proof {
                        assert(self.state(inp.remaining(), out@, RunStatus::Running) =~= step_spec(
                            self.ops@,
                            pre,
                        ));
                    }
                    RunStatus::Running
                }
            },
            Action::Proceed => {
                match op {
                    OpCode::JmpStart => {
                        self.jump_stack.push(self.pointer + 1);
                        self.increment_pointer();
                        proof {
                            assert(self.state(inp.remaining(), out@, RunStatus::Running)
                                =~= step_spec(self.ops@, pre));
                        }
                        RunStatus::Running
                    },
                    OpCode::JmpEnd => {
                        if self.jump_stack.len() == 0 {
                            proof {
                                assert(self.state(
                                    inp.remaining(),
                                    out@,
                                    RunStatus::Faulted(ExecFault::JumpStackEmpty),
                                ) =~= step_spec(self.ops@, pre));
                            }
                            RunStatus::Faulted(ExecFault::JumpStackEmpty)
                        } else {
                            self.jump_stack.pop();
                            self.increment_pointer();
                            proof {
                                assert(self.state(inp.remaining(), out@, RunStatus::Running)
                                    =~= step_spec(self.ops@, pre));
                            }
                            RunStatus::Running
                        }
                    },
                    _ => {
                        self.increment_pointer();
                        proof {
                            assert(self.state(inp.remaining(), out@, RunStatus::Running)
                                =~= step_spec(self.ops@, pre));
                        }
                        RunStatus::Running
                    },
                }
            },
        }
    }

    /// Run from the first instruction until the program halts, a fatal
    /// condition stops it, or `max_steps` instructions were performed;
    /// the result reports which. The state afterwards is the spec
    /// machine run for exactly as many steps as were taken.
    pub fn execute_all(&mut self, out: &mut Vec<u8>, inp: &mut ByteSource, max_steps: u64) -> (st:
        RunStatus)
        requires
            old(self).wf(),
            old(inp).wf(),
        ensures
            final(self).wf(),
            final(inp).wf(),
            final(self).ops == old(self).ops,
            ({
                let s0 = ExecState {
                    cells: old(self).inner.raw@,
                    cursor: old(self).inner.pointer as int,
                    ip: 0,
                    jumps: old(self).jump_stack@,
                    input: old(inp).remaining(),
                    output: old(out)@,
                    status: RunStatus::Running,
                };
                exists|n: nat|
                    n <= max_steps && final(self).state(final(inp).remaining(), final(out)@, st)
                        == run_spec(old(self).ops@, s0, n) && (st is Running ==> n == max_steps)
            }),
    {
        self.pointer = 0;
        let ghost ops = self.ops@;
        let ghost s0 = self.state(inp.remaining(), out@, RunStatus::Running);
        let ghost mut n: nat = 0;
        let mut steps: u64 = 0;
        let mut result = RunStatus::Running;
        while steps < max_steps
            invariant_except_break
                result is Running,
            invariant
                self.wf(),
                inp.wf(),
                self.ops == old(self).ops,
                self.ops@ == ops,
                steps <= max_steps,
                n == steps,
                self.state(inp.remaining(), out@, result) == run_spec(ops, s0, n),
            ensures
                n <= max_steps,
                self.state(inp.remaining(), out@, result) == run_spec(ops, s0, n),
                result is Running ==> n == max_steps,
                self.wf(),
                inp.wf(),
                self.ops == old(self).ops,
            decreases max_steps - steps,
        {
            let st = self.step(out, inp);
            steps = steps + 1;
            proof {
                n = n + 1;
            }
            match st {
                RunStatus::Running => {},
                _ => {
                    result = st;
                    break ;
                },
            }
        }
        proof {
            assert(self.state(inp.remaining(), out@, result) == run_spec(ops, s0, n));
        }
        result
    }
}

} // verus!
