use crate::errors::{ProgramError, ProgramErrorKind, join_dots, op_display, op_text};
use crate::opcodes::{OpCode, OpValue, Operation};
use crate::rescue::{Rescue128, CYCLE_LENGTH, NUM_ROUNDS, sponge_absorb};
use crate::text::lossy_text;
use vstd::string::StringSliceAdditionalSpecFns;
use vstd::prelude::*;

verus! {

/// A `push` starts at a multiple of this index, so that its opcode and its
/// immediate enter the sponge on the same row.
pub const PUSH_OP_ALIGNMENT: usize = 8;

// ----------------------------------------------------------------------------
// Tokens
// ----------------------------------------------------------------------------

/// ASCII white space: space, tab, line feed, vertical tab, form feed, return.
pub open spec fn is_space(b: u8) -> bool {
    b == 32 || (9 <= b && b <= 13)
}

pub open spec fn flush(toks: Seq<Seq<u8>>, cur: Seq<u8>) -> Seq<Seq<u8>> {
    if cur.len() == 0 {
        toks
    } else {
        toks.push(cur)
    }
}

/// The scan of a source prefix: the finished tokens, the token being read,
/// and whether the scan is inside a comment.
pub open spec fn lex(s: Seq<u8>) -> (Seq<Seq<u8>>, Seq<u8>, bool)
    decreases s.len(),
{
    if s.len() == 0 {
        (seq![], seq![], false)
    } else {
        let (toks, cur, comment) = lex(s.drop_last());
        let b = s.last();
        if comment {
            (toks, cur, b != 10)
        } else if b == 35 {
            (flush(toks, cur), seq![], true)
        } else if is_space(b) {
            (flush(toks, cur), seq![], false)
        } else {
            (toks, cur.push(b), false)
        }
    }
}

/// The tokens of a source text: the words between white space, with every
/// `#` comment up to the end of its line left out.
pub open spec fn tokens(s: Seq<u8>) -> Seq<Seq<u8>> {
    flush(lex(s).0, lex(s).1)
}

/// Splits a source text into its tokens.
pub fn tokenize(source: &[u8]) -> (r: Vec<Vec<u8>>)
    ensures
        r@.map_values(|t: Vec<u8>| t@) == tokens(source@),
{
    let mut toks: Vec<Vec<u8>> = Vec::new();
    let mut cur: Vec<u8> = Vec::new();
    let mut comment = false;
    let mut i: usize = 0;
    while i < source.len()
        invariant
            0 <= i <= source.len(),
            lex(source@.subrange(0, i as int)) == (toks@.map_values(|t: Vec<u8>| t@), cur@, comment),
        decreases source.len() - i,
    {
        let b = source[i];
        let ghost prev = toks@.map_values(|t: Vec<u8>| t@);
        proof {
            assert(source@.subrange(0, i + 1).drop_last() =~= source@.subrange(0, i as int));
        }
        if comment {
            if b == 10 {
                comment = false;
            }
        } else if b == 35 || b == 32 || (9 <= b && b <= 13) {
            if cur.len() > 0 {
                toks.push(cur);
                assert(toks@.map_values(|t: Vec<u8>| t@) =~= prev.push(cur@));
            }
            cur = Vec::new();
            comment = b == 35;
        } else {
            cur.push(b);
        }
        i += 1;
    }
    assert(source@.subrange(0, source.len() as int) =~= source@);
    let ghost prev = toks@.map_values(|t: Vec<u8>| t@);
    if cur.len() > 0 {
        toks.push(cur);
        assert(toks@.map_values(|t: Vec<u8>| t@) =~= prev.push(cur@));
    }
    toks
}

/// The parts of a token between dots.
pub open spec fn split_dots(t: Seq<u8>) -> Seq<Seq<u8>>
    decreases t.len(),
{
    if t.len() == 0 {
        seq![seq![]]
    } else {
        let parts = split_dots(t.drop_last());
        if t.last() == 46 {
            parts.push(seq![])
        } else {
            parts.update(parts.len() - 1, parts.last().push(t.last()))
        }
    }
}

proof fn lemma_split_dots_nonempty(t: Seq<u8>)
    ensures
        split_dots(t).len() >= 1,
    decreases t.len(),
{
    if t.len() > 0 {
        lemma_split_dots_nonempty(t.drop_last());
    }
}

fn split_token(t: &Vec<u8>) -> (r: Vec<Vec<u8>>)
    ensures
        r@.map_values(|p: Vec<u8>| p@) == split_dots(t@),
        r.len() >= 1,
{
    let mut parts: Vec<Vec<u8>> = Vec::new();
    let mut cur: Vec<u8> = Vec::new();
    let mut i: usize = 0;
    while i < t.len()
        invariant
            0 <= i <= t.len(),
            split_dots(t@.subrange(0, i as int)) == parts@.map_values(|p: Vec<u8>| p@).push(cur@),
        decreases t.len() - i,
    {
        let b = t[i];
        let ghost prev = parts@.map_values(|p: Vec<u8>| p@);
        proof {
            assert(t@.subrange(0, i + 1).drop_last() =~= t@.subrange(0, i as int));
        }
        if b == 46 {
            parts.push(cur);
            cur = Vec::new();
            assert(parts@.map_values(|p: Vec<u8>| p@) =~= prev.push(
                split_dots(t@.subrange(0, i as int)).last(),
            ));
            assert(split_dots(t@.subrange(0, i + 1)) =~= parts@.map_values(|p: Vec<u8>| p@).push(
                cur@,
            ));
        } else {
            cur.push(b);
            assert(split_dots(t@.subrange(0, i + 1)) =~= prev.push(cur@));
        }
        i += 1;
    }
    assert(t@.subrange(0, t.len() as int) =~= t@);
    let ghost prev = parts@.map_values(|p: Vec<u8>| p@);
    parts.push(cur);
    assert(parts@.map_values(|p: Vec<u8>| p@) =~= prev.push(cur@));
    parts
}

// ----------------------------------------------------------------------------
// Numbers
// ----------------------------------------------------------------------------

pub open spec fn is_digit(b: u8) -> bool {
    48 <= b && b <= 57
}

/// The value of a string of decimal digits.
pub open spec fn digits_value(s: Seq<u8>) -> int
    decreases s.len(),
{
    if s.len() == 0 {
        0
    } else {
        10 * digits_value(s.drop_last()) + (s.last() - 48)
    }
}

/// The digits of a `u8` numeral: all that follows an optional `+`.
pub open spec fn u8_digits(s: Seq<u8>) -> Seq<u8> {
    if s.len() > 0 && s[0] == 43 {
        s.drop_first()
    } else {
        s
    }
}

/// Whether a byte string is a `u8` numeral: an optional `+`, then one or more
/// decimal digits whose value is at most 255.
pub open spec fn is_u8_numeral(s: Seq<u8>) -> bool {
    let d = u8_digits(s);
    &&& d.len() > 0
    &&& forall|i: int| 0 <= i < d.len() ==> is_digit(#[trigger] d[i])
    &&& digits_value(d) <= 255
}

proof fn lemma_digits_value_nonneg(s: Seq<u8>)
    requires
        forall|i: int| 0 <= i < s.len() ==> is_digit(#[trigger] s[i]),
    ensures
        digits_value(s) >= 0,
    decreases s.len(),
{
    if s.len() > 0 {
        lemma_digits_value_nonneg(s.drop_last());
    }
}

/// Reads a decimal `u8` as `str::parse::<u8>` does.
pub fn parse_u8(s: &Vec<u8>) -> (r: Option<u8>)
    ensures
        r.is_some() <==> is_u8_numeral(s@),
        r.is_some() ==> r.unwrap() as int == digits_value(u8_digits(s@)),
{
    let start: usize = if s.len() > 0 && s[0] == 43 {
        1
    } else {
        0
    };
    let ghost d = u8_digits(s@);
    assert(d =~= s@.subrange(start as int, s.len() as int));
    if start == s.len() {
        return None;
    }
    let mut value: u32 = 0;
    let mut i: usize = start;
    while i < s.len()
        invariant
            start <= i <= s.len(),
            d == u8_digits(s@),
            d =~= s@.subrange(start as int, s.len() as int),
            value <= 255,
            forall|k: int| 0 <= k < i - start ==> is_digit(#[trigger] d[k]),
            value as int == digits_value(d.subrange(0, i - start)),
        decreases s.len() - i,
    {
        let b = s[i];
        proof {
            assert(d.subrange(0, i - start + 1).drop_last() =~= d.subrange(0, i - start));
        }
        if b < 48 || b > 57 {
            proof {
                assert(d[i - start] == b);
                assert(!is_digit(d[i - start]));
                assert(!is_u8_numeral(s@));
            }
            return None;
        }
        let next = value * 10 + (b - 48) as u32;
        proof {
            let k = i - start + 1;
            assert(d.subrange(0, k).last() == b);
            assert(digits_value(d.subrange(0, k)) == next);
        }
        if next > 255 {
            proof {
                if forall|m: int| 0 <= m < d.len() ==> is_digit(#[trigger] d[m]) {
                    lemma_digits_prefix_bound(d, i - start + 1);
                }
                assert(!is_u8_numeral(s@));
            }
            return None;
        }
        value = next;
        i += 1;
    }
    assert(d.subrange(0, d.len() as int) =~= d);
    Some(value as u8)
}

/// A numeral is at least as large as any of its prefixes.
proof fn lemma_digits_prefix_bound(d: Seq<u8>, k: int)
    requires
        0 <= k <= d.len(),
        forall|i: int| 0 <= i < d.len() ==> is_digit(#[trigger] d[i]),
    ensures
        digits_value(d) >= digits_value(d.subrange(0, k)),
    decreases d.len(),
{
    if k < d.len() {
        let e = d.drop_last();
        assert forall|i: int| 0 <= i < e.len() implies is_digit(#[trigger] e[i]) by {
            assert(e[i] == d[i]);
        }
        lemma_digits_prefix_bound(e, k);
        assert(e.subrange(0, k) =~= d.subrange(0, k));
        lemma_digits_value_nonneg(e);
        assert(is_digit(d.last()));
    } else {
        assert(d.subrange(0, k) =~= d);
    }
}


// ----------------------------------------------------------------------------
// Operations
// ----------------------------------------------------------------------------

/// The mnemonic of an opcode, as bytes.
pub open spec fn mnemonic(c: OpCode) -> Seq<u8> {
    match c {
        OpCode::Noop => seq![110u8, 111, 111, 112],
        OpCode::Push => seq![112u8, 117, 115, 104],
        OpCode::Read => seq![114u8, 101, 97, 100],
        OpCode::Read2 => seq![114u8, 101, 97, 100, 50],
        OpCode::Add => seq![97u8, 100, 100],
        OpCode::Mul => seq![109u8, 117, 108],
        OpCode::SAdd => seq![115u8, 97, 100, 100],
        OpCode::SMul => seq![115u8, 109, 117, 108],
        OpCode::Add2 => seq![97u8, 100, 100, 50],
    }
}

/// An operation that takes no parameter.
pub open spec fn plain_op(c: OpCode) -> Operation {
    Operation { op_code: c, op_value: OpValue::Empty }
}

/// An opcode without parameter, given its parts: only the mnemonic is allowed.
pub open spec fn parse_plain(c: OpCode, parts: Seq<Seq<u8>>) -> Result<Operation, ProgramErrorKind> {
    if parts.len() > 1 {
        Err(ProgramErrorKind::ExtraParam)
    } else {
        Ok(plain_op(c))
    }
}

/// `push.<u8>`.
pub open spec fn parse_push_spec(parts: Seq<Seq<u8>>) -> Result<Operation, ProgramErrorKind> {
    if parts.len() == 1 {
        Err(ProgramErrorKind::MissingParam)
    } else if parts.len() > 2 {
        Err(ProgramErrorKind::ExtraParam)
    } else if !is_u8_numeral(parts[1]) {
        Err(ProgramErrorKind::InvalidParam)
    } else {
        Ok(Operation { op_code: OpCode::Push, op_value: OpValue::Push(digits_value(u8_digits(parts[1])) as u8) })
    }
}

/// The operation that a token, split at its dots, stands for.
pub open spec fn parse_parts(parts: Seq<Seq<u8>>) -> Result<Operation, ProgramErrorKind> {
    let name = parts[0];
    if name == mnemonic(OpCode::Push) {
        parse_push_spec(parts)
    } else if name == mnemonic(OpCode::Noop) {
        parse_plain(OpCode::Noop, parts)
    } else if name == mnemonic(OpCode::Read) {
        parse_plain(OpCode::Read, parts)
    } else if name == mnemonic(OpCode::Read2) {
        parse_plain(OpCode::Read2, parts)
    } else if name == mnemonic(OpCode::Add) {
        parse_plain(OpCode::Add, parts)
    } else if name == mnemonic(OpCode::Mul) {
        parse_plain(OpCode::Mul, parts)
    } else if name == mnemonic(OpCode::SAdd) {
        parse_plain(OpCode::SAdd, parts)
    } else if name == mnemonic(OpCode::SMul) {
        parse_plain(OpCode::SMul, parts)
    } else if name == mnemonic(OpCode::Add2) {
        parse_plain(OpCode::Add2, parts)
    } else {
        Err(ProgramErrorKind::InvalidOp)
    }
}

/// The message of a loader error on a token with the given parts.
pub open spec fn op_error_message(kind: ProgramErrorKind, parts: Seq<Seq<u8>>) -> Seq<char> {
    match kind {
        ProgramErrorKind::InvalidOp => "instruction "@ + lossy_text(join_dots(parts)) + " is invalid"@,
        ProgramErrorKind::MissingParam => "malformed instruction "@ + lossy_text(parts[0])
            + ", parameter is missing"@,
        ProgramErrorKind::ExtraParam => "malformed instruction "@ + lossy_text(parts[0])
            + ", too many parameters provided"@,
        ProgramErrorKind::InvalidParam => "malformed instruction "@ + lossy_text(parts[0])
            + ", parameter '"@ + lossy_text(parts[1]) + "' is invalid"@,
        _ => seq![],
    }
}

/// Whether a loader error is the one that a token with the given parts, at
/// the given position, must give.
pub open spec fn is_op_error(e: ProgramError, kind: ProgramErrorKind, parts: Seq<Seq<u8>>, step: int) -> bool {
    &&& e.kind == kind
    &&& e.step == step
    &&& e.message@ == op_error_message(kind, parts)
}

pub open spec fn parts_view(op: Seq<Vec<u8>>) -> Seq<Seq<u8>> {
    op.map_values(|p: Vec<u8>| p@)
}

/// Whether a parser's result is what the parts give.
pub open spec fn parsed_as(
    r: Result<Operation, ProgramError>,
    expected: Result<Operation, ProgramErrorKind>,
    parts: Seq<Seq<u8>>,
    step: int,
) -> bool {
    match expected {
        Ok(op) => r == Ok::<Operation, ProgramError>(op),
        Err(kind) => r.is_err() && is_op_error(r->Err_0, kind, parts, step),
    }
}

fn same_bytes(a: &Vec<u8>, b: &[u8]) -> (r: bool)
    ensures
        r == (a@ == b@),
{
    if a.len() != b.len() {
        return false;
    }
    let mut i: usize = 0;
    while i < a.len()
        invariant
            a.len() == b.len(),
            0 <= i <= a.len(),
            forall|k: int| 0 <= k < i ==> a@[k] == b@[k],
        decreases a.len() - i,
    {
        if a[i] != b[i] {
            return false;
        }
        i += 1;
    }
    assert(a@ =~= b@);
    true
}

fn parse_plain_op(op: &Vec<Vec<u8>>, step: usize, c: OpCode) -> (r: Result<Operation, ProgramError>)
    requires
        op.len() >= 1,
    ensures
        parsed_as(r, parse_plain(c, parts_view(op@)), parts_view(op@), step as int),
{
    if op.len() > 1 {
        return Err(ProgramError::extra_param(op, step));
    }
    Ok(Operation::new(c, OpValue::Empty))
}

pub fn parse_push(op: &Vec<Vec<u8>>, step: usize) -> (r: Result<Operation, ProgramError>)
    requires
        op.len() >= 1,
    ensures
        parsed_as(r, parse_push_spec(parts_view(op@)), parts_view(op@), step as int),
{
    if op.len() == 1 {
        return Err(ProgramError::missing_param(op, step));
    } else if op.len() > 2 {
        return Err(ProgramError::extra_param(op, step));
    }
    match parse_u8(&op[1]) {
        Some(value) => Ok(Operation::push(value)),
        None => Err(ProgramError::invalid_param(op, step)),
    }
}

pub fn parse_noop(op: &Vec<Vec<u8>>, step: usize) -> (r: Result<Operation, ProgramError>)
    requires
        op.len() >= 1,
    ensures
        parsed_as(r, parse_plain(OpCode::Noop, parts_view(op@)), parts_view(op@), step as int),
{
    parse_plain_op(op, step, OpCode::Noop)
}

pub fn parse_read(op: &Vec<Vec<u8>>, step: usize) -> (r: Result<Operation, ProgramError>)
    requires
        op.len() >= 1,
    ensures
        parsed_as(r, parse_plain(OpCode::Read, parts_view(op@)), parts_view(op@), step as int),
{
    parse_plain_op(op, step, OpCode::Read)
}

pub fn parse_read2(op: &Vec<Vec<u8>>, step: usize) -> (r: Result<Operation, ProgramError>)
    requires
        op.len() >= 1,
    ensures
        parsed_as(r, parse_plain(OpCode::Read2, parts_view(op@)), parts_view(op@), step as int),
{
    parse_plain_op(op, step, OpCode::Read2)
}

pub fn parse_add(op: &Vec<Vec<u8>>, step: usize) -> (r: Result<Operation, ProgramError>)
    requires
        op.len() >= 1,
    ensures
        parsed_as(r, parse_plain(OpCode::Add, parts_view(op@)), parts_view(op@), step as int),
{
    parse_plain_op(op, step, OpCode::Add)
}

pub fn parse_mul(op: &Vec<Vec<u8>>, step: usize) -> (r: Result<Operation, ProgramError>)
    requires
        op.len() >= 1,
    ensures
        parsed_as(r, parse_plain(OpCode::Mul, parts_view(op@)), parts_view(op@), step as int),
{
    parse_plain_op(op, step, OpCode::Mul)
}

pub fn parse_sadd(op: &Vec<Vec<u8>>, step: usize) -> (r: Result<Operation, ProgramError>)
    requires
        op.len() >= 1,
    ensures
        parsed_as(r, parse_plain(OpCode::SAdd, parts_view(op@)), parts_view(op@), step as int),
{
    parse_plain_op(op, step, OpCode::SAdd)
}

pub fn parse_smul(op: &Vec<Vec<u8>>, step: usize) -> (r: Result<Operation, ProgramError>)
    requires
        op.len() >= 1,
    ensures
        parsed_as(r, parse_plain(OpCode::SMul, parts_view(op@)), parts_view(op@), step as int),
{
    parse_plain_op(op, step, OpCode::SMul)
}

pub fn parse_add2(op: &Vec<Vec<u8>>, step: usize) -> (r: Result<Operation, ProgramError>)
    requires
        op.len() >= 1,
    ensures
        parsed_as(r, parse_plain(OpCode::Add2, parts_view(op@)), parts_view(op@), step as int),
{
    parse_plain_op(op, step, OpCode::Add2)
}

/// Parses one token, found at position `step` (counted from 1).
pub fn parse_op(step: usize, token: &Vec<u8>) -> (r: Result<Operation, ProgramError>)
    ensures
        parsed_as(r, parse_parts(split_dots(token@)), split_dots(token@), step as int),
{
    let op = split_token(token);
    let ghost parts = parts_view(op@);
    assert(parts == split_dots(token@));
    let name = &op[0];
    proof {
        assert(name@ == parts[0]);
    }
    if same_bytes(name, &[112u8, 117, 115, 104]) {
        parse_push(&op, step)
    } else if same_bytes(name, &[110u8, 111, 111, 112]) {
        parse_noop(&op, step)
    } else if same_bytes(name, &[114u8, 101, 97, 100]) {
        parse_read(&op, step)
    } else if same_bytes(name, &[114u8, 101, 97, 100, 50]) {
        parse_read2(&op, step)
    } else if same_bytes(name, &[97u8, 100, 100]) {
        parse_add(&op, step)
    } else if same_bytes(name, &[109u8, 117, 108]) {
        parse_mul(&op, step)
    } else if same_bytes(name, &[115u8, 97, 100, 100]) {
        parse_sadd(&op, step)
    } else if same_bytes(name, &[115u8, 109, 117, 108]) {
        parse_smul(&op, step)
    } else if same_bytes(name, &[97u8, 100, 100, 50]) {
        parse_add2(&op, step)
    } else {
        Err(ProgramError::invalid_op(&op, step))
    }
}


// ----------------------------------------------------------------------------
// Programs
// ----------------------------------------------------------------------------

/// A loader error: its kind, the parts of the token at fault, its position.
pub type LoadError = (ProgramErrorKind, Seq<Seq<u8>>, int);

/// The operations of a token list, or the first token that is not one.
pub open spec fn parse_tokens(toks: Seq<Seq<u8>>) -> Result<Seq<Operation>, LoadError>
    decreases toks.len(),
{
    if toks.len() == 0 {
        Ok(seq![])
    } else {
        match parse_tokens(toks.drop_last()) {
            Err(e) => Err(e),
            Ok(ops) => match parse_parts(split_dots(toks.last())) {
                Err(k) => Err((k, split_dots(toks.last()), toks.len() as int)),
                Ok(op) => Ok(ops.push(op)),
            },
        }
    }
}

/// `n` no-ops.
pub open spec fn noops(n: nat) -> Seq<Operation> {
    Seq::new(n, |i: int| plain_op(OpCode::Noop))
}

/// Appends an operation to laid-out code: a `push` first moves to the next
/// multiple of 8, and nothing is placed on the two capacity-reset rows that
/// end each cycle.
pub open spec fn place(code: Seq<Operation>, op: Operation) -> Seq<Operation> {
    let c1 = if op.op_code == OpCode::Push {
        code + noops(((8 - code.len() % 8) % 8) as nat)
    } else {
        code
    };
    let c2 = if c1.len() % 16 >= 14 {
        c1 + noops((16 - c1.len() % 16) as nat)
    } else {
        c1
    };
    c2.push(op)
}

/// Operations laid out one after the other.
pub open spec fn layout(ops: Seq<Operation>) -> Seq<Operation>
    decreases ops.len(),
{
    if ops.len() == 0 {
        seq![]
    } else {
        place(layout(ops.drop_last()), ops.last())
    }
}

/// The code of a program: its operations laid out, then no-ops up to the end
/// of the cycle.
pub open spec fn padded_code(ops: Seq<Operation>) -> Seq<Operation> {
    let c = layout(ops);
    c + noops((16 - c.len() % 16) as nat)
}

/// What compiling a source text gives: its code, or the error.
pub open spec fn compile_spec(source: Seq<u8>) -> Result<Seq<Operation>, LoadError> {
    let toks = tokens(source);
    if toks.len() == 0 {
        Err((ProgramErrorKind::EmptyProgram, seq![], 0))
    } else {
        match parse_tokens(toks) {
            Err(e) => Err(e),
            Ok(ops) => Ok(padded_code(ops)),
        }
    }
}

proof fn lemma_lex_count(s: Seq<u8>)
    ensures
        lex(s).0.len() + lex(s).1.len() <= s.len(),
    decreases s.len(),
{
    if s.len() > 0 {
        lemma_lex_count(s.drop_last());
    }
}

proof fn lemma_layout_len(ops: Seq<Operation>)
    ensures
        layout(ops).len() <= 10 * ops.len(),
        layout(ops).len() % 16 < 15,
    decreases ops.len(),
{
    if ops.len() > 0 {
        lemma_layout_len(ops.drop_last());
    }
}

proof fn lemma_parse_tokens_err(toks: Seq<Seq<u8>>, j: int)
    requires
        0 <= j <= toks.len(),
        parse_tokens(toks.subrange(0, j)).is_err(),
    ensures
        parse_tokens(toks) == parse_tokens(toks.subrange(0, j)),
    decreases toks.len() - j,
{
    if j < toks.len() {
        assert(toks.subrange(0, j + 1).drop_last() =~= toks.subrange(0, j));
        lemma_parse_tokens_err(toks, j + 1);
    } else {
        assert(toks.subrange(0, j) =~= toks);
    }
}

/// The length of the code, `length` rounded up past the next multiple of the
/// cycle length.
pub fn compute_padding(length: usize) -> (r: usize)
    requires
        length <= usize::MAX - CYCLE_LENGTH,
    ensures
        r == length + (16 - length % 16),
        r % 16 == 0,
{
    length + (CYCLE_LENGTH - (length % CYCLE_LENGTH))
}

fn append_noops(code: &mut Vec<Operation>, n: usize)
    requires
        old(code).len() + n <= usize::MAX,
    ensures
        final(code)@ == old(code)@ + noops(n as nat),
{
    let ghost c0 = code@;
    let mut i: usize = 0;
    while i < n
        invariant
            0 <= i <= n,
            c0.len() + n <= usize::MAX,
            code@ == c0 + noops(i as nat),
        decreases n - i,
    {
        code.push(Operation::noop());
        i += 1;
        assert(code@ =~= c0 + noops(i as nat));
    }
}

/// Operations as text, separated by single spaces.
pub open spec fn code_text(code: Seq<Operation>) -> Seq<char>
    decreases code.len(),
{
    if code.len() == 0 {
        seq![]
    } else if code.len() == 1 {
        op_display(code[0])
    } else {
        code_text(code.drop_last()) + " "@ + op_display(code.last())
    }
}

/// A compiled program: its laid-out code and the commitment to it.
pub struct Program {
    pub code: Vec<Operation>,
    pub hash: crate::rescue::Hash,
}

/// The commitment to laid-out code: the rate lanes of the sponge after it.
pub open spec fn is_digest_of(h: crate::rescue::Hash, code: Seq<Operation>) -> bool {
    &&& h.lane0.wf()
    &&& h.lane1.wf()
    &&& h.lane0@ == sponge_absorb(code)[0]
    &&& h.lane1@ == sponge_absorb(code)[1]
}

impl Program {
    /// Compiles a source text: tokens are separated by white space, `#`
    /// starts a comment that runs to the end of the line.
    pub fn compile(source: &str) -> (r: Result<Program, ProgramError>)
        requires
            source.spec_bytes().len() <= usize::MAX / 16,
        ensures
            match compile_spec(source.spec_bytes()) {
                Ok(code) => r.is_ok() && r->Ok_0.code@ == code && is_digest_of(r->Ok_0.hash, code),
                Err((kind, parts, step)) => r.is_err() && r->Err_0.kind == kind && r->Err_0.step == step
                    && (kind == ProgramErrorKind::EmptyProgram
                        ==> r->Err_0.message@ == "a program must contain at least one instruction"@)
                    && (kind != ProgramErrorKind::EmptyProgram
                        ==> r->Err_0.message@ == op_error_message(kind, parts)),
            },
    {
        let bytes = source.as_bytes();
        let toks = tokenize(bytes);
        let ghost tv = toks@.map_values(|t: Vec<u8>| t@);
        proof {
            lemma_lex_count(bytes@);
        }
        if toks.len() == 0 {
            return Err(ProgramError::empty_program());
        }
        let mut code: Vec<Operation> = Vec::new();
        let ghost mut ops: Seq<Operation> = seq![];
        let mut i: usize = 0;
        while i < toks.len()
            invariant
                tv == toks@.map_values(|t: Vec<u8>| t@),
                tv == tokens(bytes@),
                bytes@ == source.spec_bytes(),
                toks.len() <= bytes.len() <= usize::MAX / 16,
                0 <= i <= toks.len(),
                parse_tokens(tv.subrange(0, i as int)) == Ok::<Seq<Operation>, LoadError>(ops),
                ops.len() == i,
                code@ == layout(ops),
            decreases toks.len() - i,
        {
            proof {
                assert(tv.subrange(0, i + 1).drop_last() =~= tv.subrange(0, i as int));
                lemma_layout_len(ops);
            }
            let op = match parse_op(i + 1, &toks[i]) {
                Ok(op) => op,
                Err(e) => {
                    proof {
                        assert(tv.subrange(0, i + 1).last() == tv[i as int]);
                        assert(toks@[i as int]@ == tv[i as int]);
                        assert(parse_tokens(tv.subrange(0, i + 1)) == Err::<Seq<Operation>, LoadError>(
                            (e.kind, split_dots(tv[i as int]), i + 1),
                        ));
                        lemma_parse_tokens_err(tv, i + 1);
                        assert(parse_tokens(tv) == Err::<Seq<Operation>, LoadError>(
                            (e.kind, split_dots(tv[i as int]), i + 1),
                        ));
                        assert(bytes@ == source.spec_bytes());
                        assert(compile_spec(source.spec_bytes()) == parse_tokens(tv));
                    }
                    return Err(e);
                },
            };
            if let OpCode::Push = op.op_code() {
                let alignment = code.len() % PUSH_OP_ALIGNMENT;
                let pad_length = (PUSH_OP_ALIGNMENT - alignment) % PUSH_OP_ALIGNMENT;
                append_noops(&mut code, pad_length);
            }
            if code.len() % CYCLE_LENGTH >= NUM_ROUNDS {
                let pad_length = CYCLE_LENGTH - code.len() % CYCLE_LENGTH;
                append_noops(&mut code, pad_length);
            }
            code.push(op);
            proof {
                assert(ops.push(op).drop_last() =~= ops);
                ops = ops.push(op);
            }
            i += 1;
        }
        proof {
            assert(tv.subrange(0, toks.len() as int) =~= tv);
            lemma_layout_len(ops);
        }
        let padded_length = compute_padding(code.len());
        let pad_length = padded_length - code.len();
        append_noops(&mut code, pad_length);
        let hash = Rescue128::digest(&code);
        Ok(Program { code, hash })
    }

    /// The code as `Display` would write it: the operations separated by
    /// single spaces.
    pub fn to_string(&self) -> (r: String)
        ensures
            r@ == code_text(self.code@),
    {
        let mut s = String::new();
        let mut i: usize = 0;
        while i < self.code.len()
            invariant
                0 <= i <= self.code.len(),
                s@ == code_text(self.code@.subrange(0, i as int)),
            decreases self.code.len() - i,
        {
            proof {
                reveal_strlit(" ");
                assert(self.code@.subrange(0, i + 1).drop_last() =~= self.code@.subrange(0, i as int));
            }
            if i > 0 {
                s.append(" ");
            }
            let t = op_text(&self.code[i]);
            s.append(t.as_str());
            i += 1;
        }
        assert(self.code@.subrange(0, self.code.len() as int) =~= self.code@);
        s
    }

    pub fn code(&self) -> (r: &Vec<Operation>)
        ensures
            r == &self.code,
    {
        &self.code
    }

    pub fn hash(&self) -> (r: crate::rescue::Hash)
        ensures
            r == self.hash,
    {
        self.hash
    }
}

} // verus!
