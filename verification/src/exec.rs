//! The executor: a fetch-decode-execute loop over a compiled program.
//!
//! The machine owns a fixed tape of [`TAPE_LEN`] zero-initialized byte
//! cells; moving the data pointer past either end is fatal (`NegativeIndex`
//! on the left, `OutOfBounds` on the right — the fixed-size tape policy).
//! Cell arithmetic wraps modulo 256. The input port is a byte sequence
//! consumed front to back; an `Input` instruction after it is exhausted
//! fails the run with `MissingInput` (the fail-on-end-of-input policy).
//! Output bytes are collected in program order.
//!
//! The machine is specified by the one-instruction transition [`step`] and
//! its bounded iteration [`run`]; [`execute`] is proved to return exactly
//! `run` of its arguments. `run` is a function of the program, the starting
//! state and the step budget, so the behaviour of a run is deterministic by
//! construction.

use vstd::prelude::*;

use crate::inst::Instruction;
use crate::inst::RuntimeError;

verus! {

/// Number of cells of the fixed tape, the conventional tape size for this
/// language family.
pub const TAPE_LEN: usize = 30000;

/// `v + k`, wrapping modulo 256.
pub open spec fn wrap_add(v: u8, k: u8) -> u8 {
    if v + k < 256 {
        (v + k) as u8
    } else {
        (v + k - 256) as u8
    }
}

/// `v - k`, wrapping modulo 256.
pub open spec fn wrap_sub(v: u8, k: u8) -> u8 {
    if k <= v {
        (v - k) as u8
    } else {
        (v + 256 - k) as u8
    }
}

/// The whole state of a running machine: the tape, the data pointer, the
/// instruction pointer, the input not yet consumed, and the output
/// emitted so far.
#[verifier::ext_equal]
pub struct VmState {
    pub tape: Seq<u8>,
    pub dp: int,
    pub ip: int,
    pub input: Seq<u8>,
    pub output: Seq<u8>,
}

/// The state a run starts from: a zeroed tape, both pointers at 0, the
/// whole input ahead, no output yet.
pub open spec fn init_state(input: Seq<u8>) -> VmState {
    VmState {
        tape: Seq::new(TAPE_LEN as nat, |i: int| 0u8),
        dp: 0,
        ip: 0,
        input,
        output: Seq::empty(),
    }
}

/// What one fetch-decode-execute step yields.
pub enum StepResult {
    /// The machine took the step and is in this state.
    Next(VmState),
    /// The instruction pointer is past the program: the run has succeeded.
    Halted(VmState),
    /// The step hit a fatal fault.
    Failed(RuntimeError),
}

/// One step of the machine: fetch the instruction under `ip`, apply its
/// effect, and advance `ip` — jumps taken set `ip` to their target instead.
pub open spec fn step(p: Seq<Instruction>, s: VmState) -> StepResult {
    if !(0 <= s.ip < p.len()) {
        StepResult::Halted(s)
    } else {
        match p[s.ip] {
            Instruction::Add(k) => StepResult::Next(
                VmState {
                    tape: s.tape.update(s.dp, wrap_add(s.tape[s.dp], k)),
                    ip: s.ip + 1,
                    ..s
                },
            ),
            Instruction::Subtract(k) => StepResult::Next(
                VmState {
                    tape: s.tape.update(s.dp, wrap_sub(s.tape[s.dp], k)),
                    ip: s.ip + 1,
                    ..s
                },
            ),
            Instruction::MoveRight(k) => {
                if s.dp + k < s.tape.len() {
                    StepResult::Next(VmState { dp: s.dp + k, ip: s.ip + 1, ..s })
                } else {
                    StepResult::Failed(RuntimeError::OutOfBounds)
                }
            },
            Instruction::MoveLeft(k) => {
                if k <= s.dp {
                    StepResult::Next(VmState { dp: s.dp - k, ip: s.ip + 1, ..s })
                } else {
                    StepResult::Failed(RuntimeError::NegativeIndex)
                }
            },
            Instruction::JumpIfZero(t) => StepResult::Next(
                VmState {
                    ip: if s.tape[s.dp] == 0 {
                        t as int
                    } else {
                        s.ip + 1
                    },
                    ..s
                },
            ),
            Instruction::JumpIfNotZero(t) => StepResult::Next(
                VmState {
                    ip: if s.tape[s.dp] != 0 {
                        t as int
                    } else {
                        s.ip + 1
                    },
                    ..s
                },
            ),
            Instruction::Output => StepResult::Next(
                VmState { output: s.output.push(s.tape[s.dp]), ip: s.ip + 1, ..s },
            ),
            Instruction::Input => {
                if s.input.len() == 0 {
                    StepResult::Failed(RuntimeError::MissingInput)
                } else {
                    StepResult::Next(
                        VmState {
                            tape: s.tape.update(s.dp, s.input[0]),
                            input: s.input.skip(1),
                            ip: s.ip + 1,
                            ..s
                        },
                    )
                }
            },
            Instruction::UnresolvedLoopStart => StepResult::Failed(RuntimeError::MalformedProgram),
        }
    }
}

/// Where a run ends up within a step budget.
#[verifier::ext_equal]
pub enum RunResult {
    /// The budget ran out with the machine still going, in this state.
    Running(VmState),
    /// The instruction pointer left the program: success, in this state.
    Halted(VmState),
    /// The run hit a fatal fault.
    Failed(RuntimeError),
}

/// The machine after at most `fuel` steps from `s`: halted, failed, or
/// still running when the budget is spent.
pub open spec fn run(p: Seq<Instruction>, s: VmState, fuel: nat) -> RunResult
    decreases fuel,
{
    if !(0 <= s.ip < p.len()) {
        RunResult::Halted(s)
    } else if fuel == 0 {
        RunResult::Running(s)
    } else {
        match step(p, s) {
            StepResult::Next(s2) => run(p, s2, (fuel - 1) as nat),
            StepResult::Halted(s2) => RunResult::Halted(s2),
            StepResult::Failed(e) => RunResult::Failed(e),
        }
    }
}

/// What [`execute`] reports back.
#[derive(Debug)]
pub enum ExecOutcome {
    /// The run succeeded; the output it emitted and the final tape.
    Halted { output: Vec<u8>, tape: Vec<u8> },
    /// The run hit a fatal fault; tape and pointer state are discarded.
    Failed(RuntimeError),
    /// The step budget was spent before the run ended.
    OutOfSteps,
}

/// The spec state that the executor's locals stand for.
pub open spec fn vm_abs(
    tape: Seq<u8>,
    dp: usize,
    ip: usize,
    input: Seq<u8>,
    in_pos: usize,
    output: Seq<u8>,
) -> VmState {
    VmState { tape, dp: dp as int, ip: ip as int, input: input.skip(in_pos as int), output }
}

/// Run a compiled program against an input, allowing at most `max_steps`
/// instructions, and report exactly what the abstract machine [`run`]
/// yields: the output and final tape on success, the fault on failure, or
/// that the budget ran out.
pub fn execute(program: &Vec<Instruction>, input: &Vec<u8>, max_steps: u64) -> (r: ExecOutcome)
    ensures
        (match run(program@, init_state(input@), max_steps as nat) {
            RunResult::Halted(s) => {
                &&& r matches ExecOutcome::Halted { output, tape }
                &&& output@ == s.output
                &&& tape@ == s.tape
            },
            RunResult::Failed(e) => r == ExecOutcome::Failed(e),
            RunResult::Running(s) => r is OutOfSteps,
        }),
{
    let n = program.len();
    let mut tape: Vec<u8> = Vec::new();
    let mut t: usize = 0;
    while t < TAPE_LEN
        invariant
            t == tape@.len(),
            t <= TAPE_LEN,
            forall|q: int| 0 <= q < t ==> tape@[q] == 0,
        decreases TAPE_LEN - t,
    {
        tape.push(0);
        t = t + 1;
    }
    let ghost s0 = init_state(input@);
    proof {
        assert(tape@ =~= s0.tape);
        assert(input@.skip(0) =~= input@);
        assert(vm_abs(tape@, 0, 0, input@, 0, Seq::empty()) =~= s0);
    }
    let mut dp: usize = 0;
    let mut ip: usize = 0;
    let mut in_pos: usize = 0;
    let mut out: Vec<u8> = Vec::new();
    let mut steps: u64 = 0;
    loop
        invariant
            s0 == init_state(input@),
            n == program@.len(),
            tape@.len() == TAPE_LEN,
            dp < TAPE_LEN,
            in_pos <= input@.len(),
            steps <= max_steps,
            run(program@, s0, max_steps as nat) == run(
                program@,
                vm_abs(tape@, dp, ip, input@, in_pos, out@),
                (max_steps - steps) as nat,
            ),
        decreases max_steps - steps,
    {
        let ghost cur = vm_abs(tape@, dp, ip, input@, in_pos, out@);
        let ghost rem = (max_steps - steps) as nat;
        if ip >= n {
            proof {
                assert(run(program@, cur, rem) == RunResult::Halted(cur));
            }
            return ExecOutcome::Halted { output: out, tape };
        }
        if steps == max_steps {
            proof {
                assert(run(program@, cur, rem) == RunResult::Running(cur));
            }
            return ExecOutcome::OutOfSteps;
        }
        match program[ip] {
            Instruction::Add(k) => {
                let cell = tape[dp];
                let sum = cell as u16 + k as u16;
                let nv = (sum % 256) as u8;
                proof {
                    assert(nv == wrap_add(cell, k));
                }
                tape[dp] = nv;
                ip = ip + 1;
            },
            Instruction::Subtract(k) => {
                let cell = tape[dp];
                let nv = if k <= cell {
                    cell - k
                } else {
                    (cell as u16 + 256 - k as u16) as u8
                };
                proof {
                    assert(nv == wrap_sub(cell, k));
                }
                tape[dp] = nv;
                ip = ip + 1;
            },
            Instruction::MoveRight(k) => {
                if k < TAPE_LEN - dp {
                    dp = dp + k;
                    ip = ip + 1;
                } else {
                    proof {
                        assert(step(program@, cur) == StepResult::Failed(
                            RuntimeError::OutOfBounds,
                        ));
                    }
                    return ExecOutcome::Failed(RuntimeError::OutOfBounds);
                }
            },
            Instruction::MoveLeft(k) => {
                if k <= dp {
                    dp = dp - k;
                    ip = ip + 1;
                } else {
                    proof {
                        assert(step(program@, cur) == StepResult::Failed(
                            RuntimeError::NegativeIndex,
                        ));
                    }
                    return ExecOutcome::Failed(RuntimeError::NegativeIndex);
                }
            },
            Instruction::JumpIfZero(t2) => {
                if tape[dp] == 0 {
                    ip = t2;
                } else {
                    ip = ip + 1;
                }
            },
            Instruction::JumpIfNotZero(t2) => {
                if tape[dp] != 0 {
                    ip = t2;
                } else {
                    ip = ip + 1;
                }
            },
            Instruction::Output => {
                let cell = tape[dp];
                out.push(cell);
                ip = ip + 1;
            },
            Instruction::Input => {
                if in_pos < input.len() {
                    let v = input[in_pos];
                    tape[dp] = v;
                    in_pos = in_pos + 1;
                    ip = ip + 1;
                    proof {
                        assert(input@.skip(in_pos as int) =~= input@.skip(
                            in_pos as int - 1,
                        ).skip(1));
                    }
                } else {
                    proof {
                        assert(cur.input =~= Seq::<u8>::empty());
                        assert(step(program@, cur) == StepResult::Failed(
                            RuntimeError::MissingInput,
                        ));
                    }
                    return ExecOutcome::Failed(RuntimeError::MissingInput);
                }
            },
            Instruction::UnresolvedLoopStart => {
                proof {
                    assert(step(program@, cur) == StepResult::Failed(
                        RuntimeError::MalformedProgram,
                    ));
                }
                return ExecOutcome::Failed(RuntimeError::MalformedProgram);
            },
        }
        steps = steps + 1;
        proof {
            assert(step(program@, cur) matches StepResult::Next(s2) && s2 =~= vm_abs(
                tape@,
                dp,
                ip,
                input@,
                in_pos,
                out@,
            ));
        }
    }
}

/// Adding `n` to a cell and then subtracting `n` restores the cell exactly,
/// whatever its starting value: the modulo-256 round trip is lossless.
pub proof fn lemma_add_subtract_round_trip(v: u8, n: u8)
    ensures
        wrap_sub(wrap_add(v, n), n) == v,
{
}

/// The cell value after `k` single unit increments.
pub open spec fn inc_n(v: u8, k: nat) -> u8
    decreases k,
{
    if k == 0 {
        v
    } else {
        wrap_add(inc_n(v, (k - 1) as nat), 1)
    }
}

/// A single `Add` carrying `k` reduced modulo 256 moves a cell exactly
/// where `k` unit increments, applied one at a time, would move it.
pub proof fn lemma_add_run_effect(v: u8, k: nat)
    ensures
        wrap_add(v, (k % 256) as u8) == inc_n(v, k),
    decreases k,
{
    if k > 0 {
        lemma_add_run_effect(v, (k - 1) as nat);
        vstd::arithmetic::div_mod::lemma_add_mod_noop((k - 1) as int, 1, 256);
    }
}

} // verus!
