use crate::opcodes::{opcode_name, OpValue, Operation};
use crate::text::{append_decimal, decimal, lossy_text, utf8_text};
use vstd::prelude::*;

verus! {

/// How an operation is written in messages: `add`, `push(5)`.
pub open spec fn op_display(op: Operation) -> Seq<char> {
    match op.op_value {
        OpValue::Push(v) => opcode_name(op.op_code) + seq!['('] + decimal(v as nat) + seq![')'],
        OpValue::Empty => opcode_name(op.op_code),
    }
}

/// Writes an operation as messages show it.
pub fn op_text(op: &Operation) -> (r: String)
    ensures
        r@ == op_display(*op),
{
    let mut s = op.op_code.name();
    match op.op_value {
        OpValue::Push(v) => {
            proof {
                reveal_strlit("(");
                reveal_strlit(")");
            }
            s.append("(");
            append_decimal(&mut s, v as usize);
            s.append(")");
        },
        OpValue::Empty => {},
    }
    s
}

/// Parts of a token joined again by dots.
pub open spec fn join_dots(parts: Seq<Seq<u8>>) -> Seq<u8>
    decreases parts.len(),
{
    if parts.len() == 0 {
        seq![]
    } else if parts.len() == 1 {
        parts[0]
    } else {
        join_dots(parts.drop_last()) + seq![46u8] + parts.last()
    }
}

/// Why a program could not be compiled.
#[derive(Clone, Copy, PartialEq, Eq, Structural, Debug)]
pub enum ProgramErrorKind {
    ReadError,
    EmptyProgram,
    InvalidOp,
    MissingParam,
    ExtraParam,
    InvalidParam,
}

/// An error of the loader: its kind, its message and the position (counted
/// from 1) of the token at fault, 0 when no token is.
pub struct ProgramError {
    pub kind: ProgramErrorKind,
    pub message: String,
    pub step: usize,
}

impl ProgramError {
    pub fn read_error(message: &str) -> (r: ProgramError)
        ensures
            r.kind == ProgramErrorKind::ReadError,
            r.message@ == message@,
            r.step == 0,
    {
        ProgramError { kind: ProgramErrorKind::ReadError, message: String::from_str(message), step: 0 }
    }

    pub fn empty_program() -> (r: ProgramError)
        ensures
            r.kind == ProgramErrorKind::EmptyProgram,
            r.message@ == "a program must contain at least one instruction"@,
            r.step == 0,
    {
        ProgramError {
            kind: ProgramErrorKind::EmptyProgram,
            message: String::from_str("a program must contain at least one instruction"),
            step: 0,
        }
    }

    pub fn invalid_op(op: &Vec<Vec<u8>>, step: usize) -> (r: ProgramError)
        ensures
            r.kind == ProgramErrorKind::InvalidOp,
            r.message@ == "instruction "@ + lossy_text(join_dots(op@.map_values(|p: Vec<u8>| p@)))
                + " is invalid"@,
            r.step == step,
    {
        let ghost parts = op@.map_values(|p: Vec<u8>| p@);
        let mut joined: Vec<u8> = Vec::new();
        let mut i: usize = 0;
        while i < op.len()
            invariant
                0 <= i <= op.len(),
                parts == op@.map_values(|p: Vec<u8>| p@),
                joined@ == join_dots(parts.subrange(0, i as int)),
            decreases op.len() - i,
        {
            if i > 0 {
                joined.push(46u8);
            }
            let mut j: usize = 0;
            let ghost before = joined@;
            while j < op[i].len()
                invariant
                    0 <= i < op.len(),
                    0 <= j <= op[i as int].len(),
                    joined@ == before + op[i as int]@.subrange(0, j as int),
                decreases op[i as int].len() - j,
            {
                joined.push(op[i][j]);
                j += 1;
            }
            proof {
                let sub = parts.subrange(0, i + 1);
                assert(sub.drop_last() =~= parts.subrange(0, i as int));
                assert(op[i as int]@.subrange(0, j as int) =~= op[i as int]@);
                if i == 0 {
                    assert(joined@ =~= join_dots(sub));
                } else {
                    assert(joined@ =~= join_dots(sub));
                }
            }
            i += 1;
        }
        assert(parts.subrange(0, op.len() as int) =~= parts);
        let text = utf8_text(joined.as_slice());
        let mut message = String::from_str("instruction ");
        message.append(text.as_str());
        message.append(" is invalid");
        ProgramError { kind: ProgramErrorKind::InvalidOp, message, step }
    }

    pub fn missing_param(op: &Vec<Vec<u8>>, step: usize) -> (r: ProgramError)
        requires
            op.len() >= 1,
        ensures
            r.kind == ProgramErrorKind::MissingParam,
            r.message@ == "malformed instruction "@ + lossy_text(op@[0]@) + ", parameter is missing"@,
            r.step == step,
    {
        let text = utf8_text(op[0].as_slice());
        let mut message = String::from_str("malformed instruction ");
        message.append(text.as_str());
        message.append(", parameter is missing");
        ProgramError { kind: ProgramErrorKind::MissingParam, message, step }
    }

    pub fn extra_param(op: &Vec<Vec<u8>>, step: usize) -> (r: ProgramError)
        requires
            op.len() >= 1,
        ensures
            r.kind == ProgramErrorKind::ExtraParam,
            r.message@ == "malformed instruction "@ + lossy_text(op@[0]@)
                + ", too many parameters provided"@,
            r.step == step,
    {
        let text = utf8_text(op[0].as_slice());
        let mut message = String::from_str("malformed instruction ");
        message.append(text.as_str());
        message.append(", too many parameters provided");
        ProgramError { kind: ProgramErrorKind::ExtraParam, message, step }
    }

    pub fn invalid_param(op: &Vec<Vec<u8>>, step: usize) -> (r: ProgramError)
        requires
            op.len() >= 2,
        ensures
            r.kind == ProgramErrorKind::InvalidParam,
            r.message@ == "malformed instruction "@ + lossy_text(op@[0]@) + ", parameter '"@
                + lossy_text(op@[1]@) + "' is invalid"@,
            r.step == step,
    {
        let name = utf8_text(op[0].as_slice());
        let param = utf8_text(op[1].as_slice());
        let mut message = String::from_str("malformed instruction ");
        message.append(name.as_str());
        message.append(", parameter '");
        message.append(param.as_str());
        message.append("' is invalid");
        ProgramError { kind: ProgramErrorKind::InvalidParam, message, step }
    }

    pub fn message(&self) -> (r: String)
        ensures
            r@ == self.message@,
    {
        self.message.clone()
    }

    pub fn step(&self) -> (r: usize)
        ensures
            r == self.step,
    {
        self.step
    }

    /// The error as `Display` would write it.
    pub fn to_string(&self) -> (r: String)
        ensures
            r@ == "program error at "@ + decimal(self.step as nat) + ": "@ + self.message@,
    {
        let mut s = String::from_str("program error at ");
        append_decimal(&mut s, self.step);
        s.append(": ");
        s.append(self.message.as_str());
        s
    }
}

/// Why the stack could not execute an operation.
#[derive(Clone, Copy, PartialEq, Eq, Structural, Debug)]
pub enum StackErrorKind {
    StackUnderflow,
    StackOverflow,
    EmptyInput,
}

/// An error of the stack: its kind, the operation and the clock at which it
/// failed.
#[derive(Clone, Copy, PartialEq, Eq, Structural, Debug)]
pub struct StackError {
    pub kind: StackErrorKind,
    pub op: Operation,
    pub step: usize,
}

/// The message of a stack error.
pub open spec fn stack_error_message(kind: StackErrorKind, op: Operation) -> Seq<char> {
    match kind {
        StackErrorKind::StackUnderflow => op_display(op) + " operation stack underflow"@,
        StackErrorKind::StackOverflow => op_display(op) + " operation stack overflow"@,
        StackErrorKind::EmptyInput => "no more inputs to "@ + op_display(op),
    }
}

impl StackError {
    pub fn stack_underflow(op: &Operation, step: usize) -> (r: StackError)
        ensures
            r == (StackError { kind: StackErrorKind::StackUnderflow, op: *op, step }),
    {
        StackError { kind: StackErrorKind::StackUnderflow, op: *op, step }
    }

    pub fn stack_overflow(op: &Operation, step: usize) -> (r: StackError)
        ensures
            r == (StackError { kind: StackErrorKind::StackOverflow, op: *op, step }),
    {
        StackError { kind: StackErrorKind::StackOverflow, op: *op, step }
    }

    pub fn empty_inputs(op: &Operation, step: usize) -> (r: StackError)
        ensures
            r == (StackError { kind: StackErrorKind::EmptyInput, op: *op, step }),
    {
        StackError { kind: StackErrorKind::EmptyInput, op: *op, step }
    }

    pub fn message(&self) -> (r: String)
        ensures
            r@ == stack_error_message(self.kind, self.op),
    {
        let op = op_text(&self.op);
        match self.kind {
            StackErrorKind::StackUnderflow => {
                let mut s = op;
                s.append(" operation stack underflow");
                s
            },
            StackErrorKind::StackOverflow => {
                let mut s = op;
                s.append(" operation stack overflow");
                s
            },
            StackErrorKind::EmptyInput => {
                let mut s = String::from_str("no more inputs to ");
                s.append(op.as_str());
                s
            },
        }
    }

    pub fn operation(&self) -> (r: Operation)
        ensures
            r == self.op,
    {
        self.op
    }

    pub fn step(&self) -> (r: usize)
        ensures
            r == self.step,
    {
        self.step
    }

    /// The error as `Display` would write it.
    pub fn to_string(&self) -> (r: String)
        ensures
            r@ == "stack error at "@ + decimal(self.step as nat) + ": "@ + stack_error_message(
                self.kind,
                self.op,
            ),
    {
        let mut s = String::from_str("stack error at ");
        append_decimal(&mut s, self.step);
        s.append(": ");
        let m = self.message();
        s.append(m.as_str());
        s
    }
}

/// Why the hash chiplet refused its input.
#[derive(Clone, Copy, PartialEq, Eq, Structural, Debug)]
pub enum ChipletsErrorKind {
    /// An operation other than `noop` on a capacity-reset row.
    InvalidOperation(Operation),
    /// A run whose length is not a whole number of cycles.
    InvalidTraceLength { expected: usize, current: usize },
}

#[derive(Clone, Copy, PartialEq, Eq, Structural, Debug)]
pub struct ChipletsError {
    pub kind: ChipletsErrorKind,
    pub step: usize,
}

pub open spec fn chiplets_error_message(kind: ChipletsErrorKind) -> Seq<char> {
    match kind {
        ChipletsErrorKind::InvalidOperation(op) => "expected noop but was "@ + op_display(op),
        ChipletsErrorKind::InvalidTraceLength { expected, current } => "trace length should be a multiple of "@
            + decimal(expected as nat) + ", but was "@ + decimal(current as nat),
    }
}

impl ChipletsError {
    pub open spec fn invalid_operation_spec(op: Operation, step: usize) -> ChipletsError {
        ChipletsError { kind: ChipletsErrorKind::InvalidOperation(op), step }
    }

    pub open spec fn invalid_trace_length_spec(expected: usize, current: usize, step: usize) -> ChipletsError {
        ChipletsError { kind: ChipletsErrorKind::InvalidTraceLength { expected, current }, step }
    }

    pub fn invalid_operation(op: &Operation, step: usize) -> (r: ChipletsError)
        ensures
            r == (ChipletsError { kind: ChipletsErrorKind::InvalidOperation(*op), step }),
    {
        ChipletsError { kind: ChipletsErrorKind::InvalidOperation(*op), step }
    }

    pub fn invalid_trace_length(expected: usize, current: usize, step: usize) -> (r: ChipletsError)
        ensures
            r == (ChipletsError {
                kind: ChipletsErrorKind::InvalidTraceLength { expected, current },
                step,
            }),
    {
        ChipletsError { kind: ChipletsErrorKind::InvalidTraceLength { expected, current }, step }
    }

    pub fn message(&self) -> (r: String)
        ensures
            r@ == chiplets_error_message(self.kind),
    {
        match self.kind {
            ChipletsErrorKind::InvalidOperation(op) => {
                let mut s = String::from_str("expected noop but was ");
                let t = op_text(&op);
                s.append(t.as_str());
                s
            },
            ChipletsErrorKind::InvalidTraceLength { expected, current } => {
                let mut s = String::from_str("trace length should be a multiple of ");
                append_decimal(&mut s, expected);
                s.append(", but was ");
                append_decimal(&mut s, current);
                s
            },
        }
    }

    /// The error as `Display` would write it.
    pub fn to_string(&self) -> (r: String)
        ensures
            r@ == "chiplets error at "@ + decimal(self.step as nat) + ": "@ + chiplets_error_message(
                self.kind,
            ),
    {
        let mut s = String::from_str("chiplets error at ");
        append_decimal(&mut s, self.step);
        s.append(": ");
        let m = self.message();
        s.append(m.as_str());
        s
    }
}

/// An error that stops a run.
#[derive(Clone, Copy, PartialEq, Eq, Structural, Debug)]
pub enum ProcessorError {
    Stack(StackError),
    Chiplets(ChipletsError),
}

impl ProcessorError {
    /// The error as `Display` would write it.
    pub fn to_string(&self) -> (r: String)
        ensures
            r@ == match *self {
                ProcessorError::Stack(e) => "stack error at "@ + decimal(e.step as nat) + ": "@
                    + stack_error_message(e.kind, e.op),
                ProcessorError::Chiplets(e) => "chiplets error at "@ + decimal(e.step as nat)
                    + ": "@ + chiplets_error_message(e.kind),
            },
    {
        match self {
            ProcessorError::Stack(e) => e.to_string(),
            ProcessorError::Chiplets(e) => e.to_string(),
        }
    }
}

} // verus!
