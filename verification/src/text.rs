//! Textual listings of compiled programs, for diagnostic printing.
//!
//! Each instruction renders as its name with the decimal count or target in
//! parentheses, one instruction per line. The renderer is verified against
//! the spec-level text [`inst_text`] / [`listing`]; only the two string
//! append primitives are taken on trust.

use vstd::prelude::*;

use crate::inst::Instruction;

verus! {

/// The character of one decimal digit.
pub open spec fn digit_char(d: nat) -> char {
    ((48 + (d % 10)) as u8) as char
}

/// The decimal digits of `n`, most significant first, no leading zeros.
pub open spec fn dec_rep(n: nat) -> Seq<char>
    decreases n,
{
    if n < 10 {
        seq![digit_char(n)]
    } else {
        dec_rep(n / 10).push(digit_char(n % 10))
    }
}

/// The textual form of one instruction: its name, with the count or jump
/// target in parentheses where it carries one.
pub open spec fn inst_text(inst: Instruction) -> Seq<char> {
    match inst {
        Instruction::Add(k) => "Add("@ + dec_rep(k as nat) + ")"@,
        Instruction::Subtract(k) => "Subtract("@ + dec_rep(k as nat) + ")"@,
        Instruction::MoveRight(k) => "MoveRight("@ + dec_rep(k as nat) + ")"@,
        Instruction::MoveLeft(k) => "MoveLeft("@ + dec_rep(k as nat) + ")"@,
        Instruction::JumpIfZero(t) => "JumpIfZero("@ + dec_rep(t as nat) + ")"@,
        Instruction::JumpIfNotZero(t) => "JumpIfNotZero("@ + dec_rep(t as nat) + ")"@,
        Instruction::Output => "Output"@,
        Instruction::Input => "Input"@,
        Instruction::UnresolvedLoopStart => "UnresolvedLoopStart"@,
    }
}

/// The listing of a whole program: each instruction's text followed by a
/// newline, in program order.
pub open spec fn listing(p: Seq<Instruction>) -> Seq<char>
    decreases p.len(),
{
    if p.len() == 0 {
        Seq::empty()
    } else {
        listing(p.drop_last()) + inst_text(p.last()) + "\n"@
    }
}

/// Relies on `String::push`: appends the given character to the end of the
/// string.
#[verifier::external_body]
fn push_char(s: &mut String, c: char)
    ensures
        final(s)@ == old(s)@.push(c),
{
    s.push(c);
}

/// Relies on `String::push_str`: appends the given string slice onto the
/// end of the string.
#[verifier::external_body]
fn push_str_lit(s: &mut String, t: &str)
    ensures
        final(s)@ == old(s)@ + t@,
{
    s.push_str(t);
}

/// Append the decimal digits of `n`.
fn push_dec(s: &mut String, n: u64)
    ensures
        final(s)@ == old(s)@ + dec_rep(n as nat),
    decreases n,
{
    if n < 10 {
        let c = ((48 + n) as u8) as char;
        push_char(s, c);
        proof {
            assert(old(s)@.push(c) =~= old(s)@ + dec_rep(n as nat));
        }
    } else {
        push_dec(s, n / 10);
        let c = ((48 + n % 10) as u8) as char;
        push_char(s, c);
        proof {
            assert((old(s)@ + dec_rep((n / 10) as nat)).push(c) =~= old(s)@ + dec_rep(n as nat));
        }
    }
}

/// Append the textual form of one instruction.
fn push_inst(s: &mut String, inst: &Instruction)
    ensures
        final(s)@ == old(s)@ + inst_text(*inst),
{
    match *inst {
        Instruction::Add(k) => {
            push_str_lit(s, "Add(");
            push_dec(s, k as u64);
            push_str_lit(s, ")");
        },
        Instruction::Subtract(k) => {
            push_str_lit(s, "Subtract(");
            push_dec(s, k as u64);
            push_str_lit(s, ")");
        },
        Instruction::MoveRight(k) => {
            push_str_lit(s, "MoveRight(");
            push_dec(s, k as u64);
            push_str_lit(s, ")");
        },
        Instruction::MoveLeft(k) => {
            push_str_lit(s, "MoveLeft(");
            push_dec(s, k as u64);
            push_str_lit(s, ")");
        },
        Instruction::JumpIfZero(t) => {
            push_str_lit(s, "JumpIfZero(");
            push_dec(s, t as u64);
            push_str_lit(s, ")");
        },
        Instruction::JumpIfNotZero(t) => {
            push_str_lit(s, "JumpIfNotZero(");
            push_dec(s, t as u64);
            push_str_lit(s, ")");
        },
        Instruction::Output => {
            push_str_lit(s, "Output");
        },
        Instruction::Input => {
            push_str_lit(s, "Input");
        },
        Instruction::UnresolvedLoopStart => {
            push_str_lit(s, "UnresolvedLoopStart");
        },
    }
    proof {
        assert(s@ =~= old(s)@ + inst_text(*inst));
    }
}

/// The textual form of one instruction, as a fresh string.
pub fn print_instruction(inst: &Instruction) -> (s: String)
    ensures
        s@ == inst_text(*inst),
{
    let mut s = String::new();
    push_inst(&mut s, inst);
    proof {
        assert(Seq::<char>::empty() + inst_text(*inst) =~= inst_text(*inst));
    }
    s
}

/// The textual listing of a whole program, one instruction per line, in
/// program order.
pub fn print_instructions(instructions: &Vec<Instruction>) -> (s: String)
    ensures
        s@ == listing(instructions@),
{
    let mut s = String::new();
    let mut i: usize = 0;
    proof {
        assert(s@ =~= listing(instructions@.take(0)));
    }
    while i < instructions.len()
        invariant
            i <= instructions@.len(),
            s@ == listing(instructions@.take(i as int)),
        decreases instructions@.len() - i,
    {
        let inst = instructions[i];
        push_inst(&mut s, &inst);
        push_str_lit(&mut s, "\n");
        proof {
            assert(instructions@.take(i as int + 1).drop_last() =~= instructions@.take(i as int));
            assert(instructions@.take(i as int + 1).last() == instructions@[i as int]);
            assert(s@ =~= listing(instructions@.take(i as int + 1)));
        }
        i = i + 1;
    }
    proof {
        assert(instructions@.take(instructions@.len() as int) =~= instructions@);
    }
    s
}

} // verus!
