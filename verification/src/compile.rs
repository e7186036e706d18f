//! The compiler: source text to a program with resolved loops.
//!
//! The source alphabet is the eight operator bytes `+ - < > [ ] . ,`; every
//! other byte is inert comment text. Runs of identical `+ - < >` operators
//! are collapsed into one instruction carrying the run length (reduced
//! modulo 256 at compile time for `+` and `-`), and brackets are resolved
//! with a stack of pending loop starts and index-based back-patching.
//!
//! The whole transformation is mirrored by the spec-level fold
//! [`comp_step`] / [`comp_run`] / [`compiled`], and [`read_to_format`] is
//! proved to return exactly that.

use vstd::prelude::*;

use crate::inst::CompileError;
use crate::inst::Instruction;
use crate::inst::well_formed;
use crate::inst::wf_at;
use crate::inst::wf_open_at;

verus! {

/// The operator byte `+`.
pub const OP_PLUS: u8 = 43;

/// The operator byte `-`.
pub const OP_MINUS: u8 = 45;

/// The operator byte `<`.
pub const OP_LEFT: u8 = 60;

/// The operator byte `>`.
pub const OP_RIGHT: u8 = 62;

/// The operator byte `[`.
pub const OP_OPEN: u8 = 91;

/// The operator byte `]`.
pub const OP_CLOSE: u8 = 93;

/// The operator byte `.`.
pub const OP_OUT: u8 = 46;

/// The operator byte `,`.
pub const OP_IN: u8 = 44;

/// The bytes that take part in run-length collapsing.
pub open spec fn is_run_op(b: u8) -> bool {
    b == OP_PLUS || b == OP_MINUS || b == OP_LEFT || b == OP_RIGHT
}

/// The instruction a finished run of `k` copies of the operator `b` turns
/// into. Arithmetic runs are reduced modulo 256 here, at compile time; move
/// runs keep the whole length.
pub open spec fn run_inst(b: u8, k: usize) -> Instruction {
    if b == OP_PLUS {
        Instruction::Add(((k as int) % 256) as u8)
    } else if b == OP_MINUS {
        Instruction::Subtract(((k as int) % 256) as u8)
    } else if b == OP_RIGHT {
        Instruction::MoveRight(k)
    } else {
        Instruction::MoveLeft(k)
    }
}

/// The compiler's intermediate state: the staged code, the stack of indices
/// of still-unresolved loop starts, and the pending run (operator byte and
/// how many copies of it have been seen).
#[verifier::ext_equal]
pub struct CompState {
    pub code: Seq<Instruction>,
    pub stack: Seq<usize>,
    pub pending: Option<(u8, usize)>,
}

/// The state the compiler starts from.
pub open spec fn comp_init() -> CompState {
    CompState { code: Seq::empty(), stack: Seq::empty(), pending: None }
}

/// Emit the pending run, if any.
pub open spec fn flush(st: CompState) -> CompState {
    match st.pending {
        None => st,
        Some(p) => CompState { code: st.code.push(run_inst(p.0, p.1)), stack: st.stack, pending: None },
    }
}

/// Resolve the loop start at `j` against a close bracket arriving when the
/// staged code has length `code.len()`: the placeholder at `j` becomes a
/// `JumpIfZero` aimed at the new `JumpIfNotZero`, which aims back at `j`.
pub open spec fn close_patch(code: Seq<Instruction>, j: int) -> Seq<Instruction> {
    code.update(j, Instruction::JumpIfZero(code.len() as usize)).push(
        Instruction::JumpIfNotZero(j as usize),
    )
}

/// One byte of source applied to a compiler state.
pub open spec fn comp_step(st: CompState, b: u8) -> Result<CompState, CompileError> {
    if is_run_op(b) {
        match st.pending {
            Some(p) => {
                if p.0 == b {
                    Ok(
                        CompState {
                            code: st.code,
                            stack: st.stack,
                            pending: Some((b, (p.1 + 1) as usize)),
                        },
                    )
                } else {
                    let f = flush(st);
                    Ok(CompState { code: f.code, stack: f.stack, pending: Some((b, 1usize)) })
                }
            },
            None => Ok(CompState { code: st.code, stack: st.stack, pending: Some((b, 1usize)) }),
        }
    } else if b == OP_OPEN {
        let f = flush(st);
        Ok(
            CompState {
                code: f.code.push(Instruction::UnresolvedLoopStart),
                stack: f.stack.push(f.code.len() as usize),
                pending: None,
            },
        )
    } else if b == OP_CLOSE {
        let f = flush(st);
        if f.stack.len() == 0 {
            Err(CompileError::UnopenedLoop)
        } else {
            Ok(
                CompState {
                    code: close_patch(f.code, f.stack.last() as int),
                    stack: f.stack.drop_last(),
                    pending: None,
                },
            )
        }
    } else if b == OP_OUT {
        let f = flush(st);
        Ok(CompState { code: f.code.push(Instruction::Output), stack: f.stack, pending: None })
    } else if b == OP_IN {
        let f = flush(st);
        Ok(CompState { code: f.code.push(Instruction::Input), stack: f.stack, pending: None })
    } else {
        Ok(st)
    }
}

/// The compiler state after the first `n` bytes of `src`, or the error the
/// scan stopped on.
pub open spec fn comp_run(src: Seq<u8>, n: int) -> Result<CompState, CompileError>
    decreases n,
{
    if n <= 0 {
        Ok(comp_init())
    } else {
        match comp_run(src, n - 1) {
            Ok(st) => comp_step(st, src[n - 1]),
            Err(e) => Err(e),
        }
    }
}

/// What compiling `src` yields: scan every byte, emit the last pending run,
/// and demand an empty loop stack.
pub open spec fn compiled(src: Seq<u8>) -> Result<Seq<Instruction>, CompileError> {
    match comp_run(src, src.len() as int) {
        Ok(st) => {
            let f = flush(st);
            if f.stack.len() > 0 {
                Err(CompileError::UnclosedLoop)
            } else {
                Ok(f.code)
            }
        },
        Err(e) => Err(e),
    }
}

/// +1 for an open bracket, -1 for a close bracket, 0 for anything else.
pub open spec fn bracket_delta(b: u8) -> int {
    if b == OP_OPEN {
        1
    } else if b == OP_CLOSE {
        -1
    } else {
        0
    }
}

/// Opens minus closes over the whole sequence.
pub open spec fn net_depth(s: Seq<u8>) -> int
    decreases s.len(),
{
    if s.len() == 0 {
        0
    } else {
        net_depth(s.drop_last()) + bracket_delta(s.last())
    }
}

/// Some prefix closes a loop that was never opened.
pub open spec fn has_excess_close(s: Seq<u8>) -> bool {
    exists|i: int| 0 <= i <= s.len() && net_depth(#[trigger] s.take(i)) < 0
}

/// The brackets of `s` nest properly: no prefix has more closes than opens,
/// and the whole has equally many of each.
pub open spec fn balanced(s: Seq<u8>) -> bool {
    &&& !has_excess_close(s)
    &&& net_depth(s) == 0
}

proof fn lemma_net_depth_step(s: Seq<u8>, i: int)
    requires
        0 <= i < s.len(),
    ensures
        net_depth(s.take(i + 1)) == net_depth(s.take(i)) + bracket_delta(s[i]),
{
    assert(s.take(i + 1).drop_last() =~= s.take(i));
    assert(s.take(i + 1).last() == s[i]);
}

proof fn lemma_comp_run_err(src: Seq<u8>, m: int, n: int)
    requires
        comp_run(src, m) is Err,
        m <= n,
    ensures
        comp_run(src, n) == comp_run(src, m),
    decreases n - m,
{
    if m < n {
        lemma_comp_run_err(src, m, n - 1);
    }
}

proof fn lemma_wf_open_push(p: Seq<Instruction>, x: Instruction)
    requires
        forall|i: int| 0 <= i < p.len() ==> #[trigger] wf_open_at(p, i),
        !(x is JumpIfZero),
        !(x is JumpIfNotZero),
    ensures
        forall|i: int| 0 <= i < p.push(x).len() ==> #[trigger] wf_open_at(p.push(x), i),
{
    let q = p.push(x);
    assert forall|i: int| 0 <= i < q.len() implies #[trigger] wf_open_at(q, i) by {
        if i < p.len() {
            assert(wf_open_at(p, i));
            assert(q[i] == p[i]);
        } else {
            assert(q[i] == x);
        }
    }
}

proof fn lemma_stack_cover_push(p: Seq<Instruction>, stack: Seq<usize>, x: Instruction)
    requires
        forall|idx: int|
            0 <= idx < p.len() && (#[trigger] p[idx]) is UnresolvedLoopStart ==> exists|k: int|
                0 <= k < stack.len() && #[trigger] stack[k] as int == idx,
        !(x is UnresolvedLoopStart),
    ensures
        forall|idx: int|
            0 <= idx < p.push(x).len() && (#[trigger] p.push(x)[idx]) is UnresolvedLoopStart
                ==> exists|k: int| 0 <= k < stack.len() && #[trigger] stack[k] as int == idx,
{
    let q = p.push(x);
    assert forall|idx: int|
        0 <= idx < q.len() && (#[trigger] q[idx]) is UnresolvedLoopStart implies exists|k: int|
        0 <= k < stack.len() && #[trigger] stack[k] as int == idx by {
        assert(idx < p.len());
        assert(p[idx] == q[idx]);
    }
}

proof fn lemma_wf_open_close(p: Seq<Instruction>, j: int)
    requires
        forall|i: int| 0 <= i < p.len() ==> #[trigger] wf_open_at(p, i),
        0 <= j < p.len(),
        p.len() <= usize::MAX,
        p[j] is UnresolvedLoopStart,
    ensures
        forall|i: int|
            0 <= i < close_patch(p, j).len() ==> #[trigger] wf_open_at(close_patch(p, j), i),
{
    let q = close_patch(p, j);
    let ln = p.len() as int;
    assert forall|i: int| 0 <= i < q.len() implies #[trigger] wf_open_at(q, i) by {
        if i == j {
            assert(q[i] == Instruction::JumpIfZero(p.len() as usize));
            assert(q[ln] == Instruction::JumpIfNotZero(j as usize));
        } else if i == ln {
            assert(q[i] == Instruction::JumpIfNotZero(j as usize));
            assert(q[j] == Instruction::JumpIfZero(p.len() as usize));
        } else {
            assert(q[i] == p[i]);
            assert(wf_open_at(p, i));
            match p[i] {
                Instruction::JumpIfZero(t) => {
                    assert(p[t as int] matches Instruction::JumpIfNotZero(b) && b as int == i);
                    assert(t as int != j);
                    assert(q[t as int] == p[t as int]);
                },
                Instruction::JumpIfNotZero(t) => {
                    assert(p[t as int] matches Instruction::JumpIfZero(b) && b as int == i);
                    assert(t as int != j);
                    assert(q[t as int] == p[t as int]);
                },
                _ => {},
            }
        }
    }
}

/// The pending run as the spec fold carries it: none while `run_len` is 0.
pub open spec fn abs_pending(run_op: u8, run_len: usize) -> Option<(u8, usize)> {
    if run_len == 0 {
        None
    } else {
        Some((run_op, run_len))
    }
}

/// The spec compiler state the executable scanner's locals stand for.
pub open spec fn abs_state(
    code: Seq<Instruction>,
    stack: Seq<usize>,
    run_op: u8,
    run_len: usize,
) -> CompState {
    CompState { code, stack, pending: abs_pending(run_op, run_len) }
}

/// The staged code once the pending run is emitted.
pub open spec fn flushed_code(code: Seq<Instruction>, run_op: u8, run_len: usize) -> Seq<
    Instruction,
> {
    if run_len == 0 {
        code
    } else {
        code.push(run_inst(run_op, run_len))
    }
}

/// Emit the pending run into the staged code, mirroring [`flush`].
fn flush_run(insts: &mut Vec<Instruction>, run_op: u8, run_len: usize)
    requires
        run_len > 0 ==> is_run_op(run_op),
    ensures
        final(insts)@ == flushed_code(old(insts)@, run_op, run_len),
{
    if run_len > 0 {
        if run_op == OP_PLUS {
            insts.push(Instruction::Add((run_len % 256) as u8));
        } else if run_op == OP_MINUS {
            insts.push(Instruction::Subtract((run_len % 256) as u8));
        } else if run_op == OP_RIGHT {
            insts.push(Instruction::MoveRight(run_len));
        } else {
            insts.push(Instruction::MoveLeft(run_len));
        }
    }
}

proof fn lemma_plus_prefix(src: Seq<u8>, i: int)
    requires
        1 <= i <= src.len(),
        src.len() <= usize::MAX,
        forall|j: int| 0 <= j < src.len() ==> src[j] == OP_PLUS,
    ensures
        comp_run(src, i) == Ok::<CompState, CompileError>(
            abs_state(Seq::empty(), Seq::empty(), OP_PLUS, i as usize),
        ),
    decreases i,
{
    if i == 1 {
        assert(comp_run(src, 0) == Ok::<CompState, CompileError>(comp_init()));
        assert(comp_step(comp_init(), OP_PLUS) matches Ok(s) && s =~= abs_state(
            Seq::empty(),
            Seq::empty(),
            OP_PLUS,
            1usize,
        ));
    } else {
        lemma_plus_prefix(src, i - 1);
        let prev = abs_state(Seq::empty(), Seq::empty(), OP_PLUS, (i - 1) as usize);
        assert(src[i - 1] == OP_PLUS);
        assert(comp_step(prev, OP_PLUS) matches Ok(s) && s =~= abs_state(
            Seq::empty(),
            Seq::empty(),
            OP_PLUS,
            i as usize,
        ));
    }
}

/// A maximal run of `k` consecutive `+` characters compiles to a single
/// instruction: `Add` carrying `k` reduced modulo 256. (That one
/// instruction moves a cell exactly as `k` unit increments would; the
/// executor states that half of the law.)
pub proof fn lemma_plus_run_compiles(k: usize)
    requires
        1 <= k,
    ensures
        compiled(Seq::new(k as nat, |i: int| OP_PLUS)) == Ok::<Seq<Instruction>, CompileError>(
            seq![Instruction::Add(((k as int) % 256) as u8)],
        ),
{
    let src = Seq::new(k as nat, |i: int| OP_PLUS);
    lemma_plus_prefix(src, k as int);
    let st = abs_state(Seq::empty(), Seq::empty(), OP_PLUS, k);
    assert(flush(st).code =~= seq![Instruction::Add(((k as int) % 256) as u8)]);
    assert(flush(st).stack.len() == 0);
}

/// Compile source text into an executable program.
///
/// Every byte outside the eight-operator alphabet is skipped as comment
/// text. The result is exactly [`compiled`] of the source: compilation
/// succeeds precisely on bracket-balanced sources, a close bracket with no
/// open loop yields `UnopenedLoop`, an open bracket never closed yields
/// `UnclosedLoop`, and a successful program satisfies [`well_formed`] — no
/// placeholder survives and the two halves of every loop point at each
/// other.
pub fn read_to_format(code: &Vec<u8>) -> (r: Result<Vec<Instruction>, CompileError>)
    ensures
        (match r {
            Ok(p) => compiled(code@) == Ok::<Seq<Instruction>, CompileError>(p@),
            Err(e) => compiled(code@) == Err::<Seq<Instruction>, CompileError>(e),
        }),
        r is Ok <==> balanced(code@),
        (r matches Ok(p) ==> well_formed(p@)),
        r == Err::<Vec<Instruction>, CompileError>(CompileError::UnopenedLoop) <==> has_excess_close(
            code@,
        ),
        r == Err::<Vec<Instruction>, CompileError>(CompileError::UnclosedLoop) <==> (
        !has_excess_close(code@) && net_depth(code@) != 0),
{
    let n = code.len();
    let mut insts: Vec<Instruction> = Vec::new();
    let mut stack: Vec<usize> = Vec::new();
    let mut run_op: u8 = 0;
    let mut run_len: usize = 0;
    let mut i: usize = 0;
    while i < n
        invariant
            n == code@.len(),
            i <= n,
            run_len <= i,
            run_len > 0 ==> is_run_op(run_op),
            comp_run(code@, i as int) == Ok::<CompState, CompileError>(
                abs_state(insts@, stack@, run_op, run_len),
            ),
            forall|k: int|
                0 <= k < stack@.len() ==> (#[trigger] stack@[k] as int) < insts@.len()
                    && insts@[stack@[k] as int] is UnresolvedLoopStart,
            forall|k1: int, k2: int|
                0 <= k1 < k2 < stack@.len() ==> #[trigger] stack@[k1] < #[trigger] stack@[k2],
            forall|idx: int|
                0 <= idx < insts@.len() && (#[trigger] insts@[idx]) is UnresolvedLoopStart
                    ==> exists|k: int| 0 <= k < stack@.len() && #[trigger] stack@[k] as int == idx,
            forall|idx: int| 0 <= idx < insts@.len() ==> #[trigger] wf_open_at(insts@, idx),
            stack@.len() == net_depth(code@.take(i as int)),
            forall|j: int| 0 <= j <= i ==> net_depth(#[trigger] code@.take(j)) >= 0,
        decreases n - i,
    {
        let ghost st_old = abs_state(insts@, stack@, run_op, run_len);
        let b = code[i];
        proof {
            lemma_net_depth_step(code@, i as int);
        }
        if b == OP_PLUS || b == OP_MINUS || b == OP_LEFT || b == OP_RIGHT {
            if run_len > 0 && run_op == b {
                run_len = run_len + 1;
            } else {
                flush_run(&mut insts, run_op, run_len);
                proof {
                    if run_len > 0 {
                        lemma_wf_open_push(st_old.code, run_inst(run_op, run_len));
                        lemma_stack_cover_push(st_old.code, st_old.stack, run_inst(run_op, run_len));
                    }
                }
                run_op = b;
                run_len = 1;
            }
            proof {
                assert(comp_step(st_old, b) matches Ok(s) && s =~= abs_state(
                    insts@,
                    stack@,
                    run_op,
                    run_len,
                ));
            }
        } else if b == OP_OPEN {
            flush_run(&mut insts, run_op, run_len);
            let ghost insts_flushed = insts@;
            let ghost stack_before = stack@;
            proof {
                if run_len > 0 {
                    lemma_wf_open_push(st_old.code, run_inst(run_op, run_len));
                    lemma_stack_cover_push(st_old.code, st_old.stack, run_inst(run_op, run_len));
                }
                lemma_wf_open_push(insts@, Instruction::UnresolvedLoopStart);
            }
            run_len = 0;
            stack.push(insts.len());
            insts.push(Instruction::UnresolvedLoopStart);
            proof {
                assert forall|idx: int|
                    0 <= idx < insts@.len() && (#[trigger] insts@[idx]) is UnresolvedLoopStart
                        implies exists|k: int|
                    0 <= k < stack@.len() && #[trigger] stack@[k] as int == idx by {
                    if idx == insts@.len() - 1 {
                        assert(stack@[stack@.len() - 1] as int == idx);
                    } else {
                        assert(insts_flushed[idx] is UnresolvedLoopStart);
                        let k = choose|k: int|
                            0 <= k < stack_before.len() && #[trigger] stack_before[k] as int
                                == idx;
                        assert(stack@[k] as int == idx);
                    }
                };
                assert(comp_step(st_old, b) matches Ok(s) && s =~= abs_state(
                    insts@,
                    stack@,
                    run_op,
                    run_len,
                ));
            }
        } else if b == OP_CLOSE {
            flush_run(&mut insts, run_op, run_len);
            proof {
                if run_len > 0 {
                    lemma_wf_open_push(st_old.code, run_inst(run_op, run_len));
                    lemma_stack_cover_push(st_old.code, st_old.stack, run_inst(run_op, run_len));
                }
            }
            run_len = 0;
            if stack.len() == 0 {
                proof {
                    assert(comp_step(st_old, b) == Err::<CompState, CompileError>(
                        CompileError::UnopenedLoop,
                    ));
                    assert(comp_run(code@, i as int + 1) == Err::<CompState, CompileError>(
                        CompileError::UnopenedLoop,
                    ));
                    lemma_comp_run_err(code@, i as int + 1, code@.len() as int);
                    assert(net_depth(code@.take(i as int + 1)) < 0);
                    assert(has_excess_close(code@));
                }
                return Err(CompileError::UnopenedLoop);
            }
            let j = stack[stack.len() - 1];
            let ghost stack_mid = stack@;
            let ghost insts_mid = insts@;
            let _ = stack.pop();
            let tgt = insts.len();
            insts[j] = Instruction::JumpIfZero(tgt);
            insts.push(Instruction::JumpIfNotZero(j));
            proof {
                assert(stack@ =~= stack_mid.drop_last());
                assert(insts@ =~= close_patch(insts_mid, j as int));
                lemma_wf_open_close(insts_mid, j as int);
                assert forall|idx: int|
                    0 <= idx < insts@.len() && (#[trigger] insts@[idx]) is UnresolvedLoopStart
                        implies exists|k: int|
                    0 <= k < stack@.len() && #[trigger] stack@[k] as int == idx by {
                    assert(idx != j as int && idx < insts_mid.len());
                    assert(insts_mid[idx] is UnresolvedLoopStart);
                    let k = choose|k: int|
                        0 <= k < stack_mid.len() && #[trigger] stack_mid[k] as int == idx;
                    assert(k != stack_mid.len() - 1);
                    assert(stack@[k] as int == idx);
                };
                assert(comp_step(st_old, b) matches Ok(s) && s =~= abs_state(
                    insts@,
                    stack@,
                    run_op,
                    run_len,
                ));
            }
        } else if b == OP_OUT {
            flush_run(&mut insts, run_op, run_len);
            proof {
                if run_len > 0 {
                    lemma_wf_open_push(st_old.code, run_inst(run_op, run_len));
                    lemma_stack_cover_push(st_old.code, st_old.stack, run_inst(run_op, run_len));
                }
                lemma_wf_open_push(insts@, Instruction::Output);
                lemma_stack_cover_push(insts@, stack@, Instruction::Output);
            }
            run_len = 0;
            insts.push(Instruction::Output);
            proof {
                assert(comp_step(st_old, b) matches Ok(s) && s =~= abs_state(
                    insts@,
                    stack@,
                    run_op,
                    run_len,
                ));
            }
        } else if b == OP_IN {
            flush_run(&mut insts, run_op, run_len);
            proof {
                if run_len > 0 {
                    lemma_wf_open_push(st_old.code, run_inst(run_op, run_len));
                    lemma_stack_cover_push(st_old.code, st_old.stack, run_inst(run_op, run_len));
                }
                lemma_wf_open_push(insts@, Instruction::Input);
                lemma_stack_cover_push(insts@, stack@, Instruction::Input);
            }
            run_len = 0;
            insts.push(Instruction::Input);
            proof {
                assert(comp_step(st_old, b) matches Ok(s) && s =~= abs_state(
                    insts@,
                    stack@,
                    run_op,
                    run_len,
                ));
            }
        } else {
            proof {
                assert(comp_step(st_old, b) matches Ok(s) && s =~= abs_state(
                    insts@,
                    stack@,
                    run_op,
                    run_len,
                ));
            }
        }
        i = i + 1;
    }
    let ghost st_end = abs_state(insts@, stack@, run_op, run_len);
    flush_run(&mut insts, run_op, run_len);
    proof {
        if run_len > 0 {
            lemma_wf_open_push(st_end.code, run_inst(run_op, run_len));
            lemma_stack_cover_push(st_end.code, st_end.stack, run_inst(run_op, run_len));
        }
        assert(code@.take(n as int) =~= code@);
        assert(flush(st_end).code =~= insts@);
        assert(flush(st_end).stack =~= stack@);
    }
    if stack.len() == 0 {
        proof {
            assert(compiled(code@) == Ok::<Seq<Instruction>, CompileError>(insts@));
            assert forall|idx: int| 0 <= idx < insts@.len() implies #[trigger] wf_at(insts@, idx) by {
                assert(wf_open_at(insts@, idx));
                if insts@[idx] is UnresolvedLoopStart {
                    assert(idx < st_end.code.len() && st_end.code[idx] is UnresolvedLoopStart);
                    assert(false);
                }
            };
        }
        Ok(insts)
    } else {
        proof {
            assert(compiled(code@) == Err::<Seq<Instruction>, CompileError>(
                CompileError::UnclosedLoop,
            ));
            assert(net_depth(code@) == stack@.len() as int);
        }
        Err(CompileError::UnclosedLoop)
    }
}

} // verus!
