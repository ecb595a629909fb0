use vstd::prelude::*;

verus! {

/// The operation that the hash chiplet applies on a row.
#[derive(Clone, Copy, PartialEq, Eq, Structural, Debug)]
pub enum HashCode {
    Round,
}

#[derive(Clone, Copy, PartialEq, Eq, Structural, Debug)]
pub struct HashOperation {
    pub hash_code: HashCode,
}

impl HashOperation {
    pub fn new(hash_code: HashCode) -> (r: HashOperation)
        ensures
            r.hash_code == hash_code,
    {
        HashOperation { hash_code }
    }

    pub fn code(&self) -> (r: u8)
        ensures
            r == 1,
    {
        match self.hash_code {
            HashCode::Round => 1,
        }
    }

    pub fn round() -> (r: HashOperation)
        ensures
            r.hash_code == HashCode::Round,
    {
        HashOperation::new(HashCode::Round)
    }
}

/// The instruction set. Each opcode has a 5-bit encoding `b0 b1 b2 b3 b4`
/// (most significant first): `b0` marks a shift right, `b1` a shift left.
#[derive(Clone, Copy, PartialEq, Eq, Structural, Debug)]
pub enum OpCode {
    Noop,
    Push,
    Read,
    Read2,
    Add,
    Mul,
    SAdd,
    SMul,
    Add2,
}

/// The 5-bit encoding of an opcode.
pub open spec fn opcode_value(c: OpCode) -> u8 {
    match c {
        OpCode::Noop => 0,
        OpCode::Push => 16,
        OpCode::Read => 17,
        OpCode::Read2 => 18,
        OpCode::Add => 8,
        OpCode::Mul => 9,
        OpCode::SAdd => 10,
        OpCode::SMul => 12,
        OpCode::Add2 => 11,
    }
}

/// The mnemonic of an opcode in program text.
pub open spec fn opcode_name(c: OpCode) -> Seq<char> {
    match c {
        OpCode::Noop => seq!['n', 'o', 'o', 'p'],
        OpCode::Push => seq!['p', 'u', 's', 'h'],
        OpCode::Read => seq!['r', 'e', 'a', 'd'],
        OpCode::Read2 => seq!['r', 'e', 'a', 'd', '2'],
        OpCode::Add => seq!['a', 'd', 'd'],
        OpCode::Mul => seq!['m', 'u', 'l'],
        OpCode::SAdd => seq!['s', 'a', 'd', 'd'],
        OpCode::SMul => seq!['s', 'm', 'u', 'l'],
        OpCode::Add2 => seq!['a', 'd', 'd', '2'],
    }
}

impl OpCode {
    pub fn value(&self) -> (r: u8)
        ensures
            r == opcode_value(*self),
    {
        match self {
            OpCode::Noop => 0,
            OpCode::Push => 16,
            OpCode::Read => 17,
            OpCode::Read2 => 18,
            OpCode::Add => 8,
            OpCode::Mul => 9,
            OpCode::SAdd => 10,
            OpCode::SMul => 12,
            OpCode::Add2 => 11,
        }
    }

    /// The mnemonic, as `Display` writes it.
    pub fn name(&self) -> (r: String)
        ensures
            r@ == opcode_name(*self),
    {
        let r = match self {
            OpCode::Noop => String::from_str("noop"),
            OpCode::Push => String::from_str("push"),
            OpCode::Read => String::from_str("read"),
            OpCode::Read2 => String::from_str("read2"),
            OpCode::Add => String::from_str("add"),
            OpCode::Mul => String::from_str("mul"),
            OpCode::SAdd => String::from_str("sadd"),
            OpCode::SMul => String::from_str("smul"),
            OpCode::Add2 => String::from_str("add2"),
        };
        proof {
            reveal_strlit("noop");
            reveal_strlit("push");
            reveal_strlit("read");
            reveal_strlit("read2");
            reveal_strlit("add");
            reveal_strlit("mul");
            reveal_strlit("sadd");
            reveal_strlit("smul");
            reveal_strlit("add2");
        }
        r
    }
}

/// The immediate of an operation: only `push` carries one.
#[derive(Clone, Copy, PartialEq, Eq, Structural, Debug)]
pub enum OpValue {
    Push(u8),
    Empty,
}

pub open spec fn op_value_of(v: OpValue) -> u8 {
    match v {
        OpValue::Push(x) => x,
        OpValue::Empty => 0,
    }
}

impl OpValue {
    pub fn value(&self) -> (r: u8)
        ensures
            r == op_value_of(*self),
    {
        match self {
            OpValue::Push(value) => *value,
            _ => 0,
        }
    }
}

#[derive(Clone, Copy, PartialEq, Eq, Structural, Debug)]
pub struct Operation {
    pub op_code: OpCode,
    pub op_value: OpValue,
}

/// The 5-bit encoding of an operation.
pub open spec fn op_code_of(op: Operation) -> u8 {
    opcode_value(op.op_code)
}

/// The immediate of an operation, 0 when it has none.
pub open spec fn op_imm_of(op: Operation) -> u8 {
    op_value_of(op.op_value)
}

/// Bit `j` of `c`, counted from the least significant.
pub open spec fn bit(c: int, j: nat) -> int
    decreases j,
{
    if j == 0 {
        c % 2
    } else {
        bit(c / 2, (j - 1) as nat)
    }
}

/// Bit `j` of an operation's encoding, counted from the least significant.
pub open spec fn op_bit(op: Operation, j: nat) -> int {
    bit(op_code_of(op) as int, j)
}

impl Operation {
    pub fn new(op_code: OpCode, op_value: OpValue) -> (r: Operation)
        ensures
            r.op_code == op_code,
            r.op_value == op_value,
    {
        Operation { op_code, op_value }
    }

    pub fn code(&self) -> (r: u8)
        ensures
            r == op_code_of(*self),
    {
        self.op_code.value()
    }

    pub fn value(&self) -> (r: u8)
        ensures
            r == op_imm_of(*self),
    {
        self.op_value.value()
    }

    pub fn op_code(&self) -> (r: OpCode)
        ensures
            r == self.op_code,
    {
        self.op_code
    }

    pub fn op_value(&self) -> (r: OpValue)
        ensures
            r == self.op_value,
    {
        self.op_value
    }

    pub fn noop() -> (r: Operation)
        ensures
            r == (Operation { op_code: OpCode::Noop, op_value: OpValue::Empty }),
    {
        Operation::new(OpCode::Noop, OpValue::Empty)
    }

    pub fn push(value: u8) -> (r: Operation)
        ensures
            r == (Operation { op_code: OpCode::Push, op_value: OpValue::Push(value) }),
    {
        Operation::new(OpCode::Push, OpValue::Push(value))
    }

    pub fn read() -> (r: Operation)
        ensures
            r == (Operation { op_code: OpCode::Read, op_value: OpValue::Empty }),
    {
        Operation::new(OpCode::Read, OpValue::Empty)
    }

    pub fn read2() -> (r: Operation)
        ensures
            r == (Operation { op_code: OpCode::Read2, op_value: OpValue::Empty }),
    {
        Operation::new(OpCode::Read2, OpValue::Empty)
    }

    pub fn add() -> (r: Operation)
        ensures
            r == (Operation { op_code: OpCode::Add, op_value: OpValue::Empty }),
    {
        Operation::new(OpCode::Add, OpValue::Empty)
    }

    pub fn mul() -> (r: Operation)
        ensures
            r == (Operation { op_code: OpCode::Mul, op_value: OpValue::Empty }),
    {
        Operation::new(OpCode::Mul, OpValue::Empty)
    }

    pub fn sadd() -> (r: Operation)
        ensures
            r == (Operation { op_code: OpCode::SAdd, op_value: OpValue::Empty }),
    {
        Operation::new(OpCode::SAdd, OpValue::Empty)
    }

    pub fn smul() -> (r: Operation)
        ensures
            r == (Operation { op_code: OpCode::SMul, op_value: OpValue::Empty }),
    {
        Operation::new(OpCode::SMul, OpValue::Empty)
    }

    pub fn add2() -> (r: Operation)
        ensures
            r == (Operation { op_code: OpCode::Add2, op_value: OpValue::Empty }),
    {
        Operation::new(OpCode::Add2, OpValue::Empty)
    }
}

} // verus!
