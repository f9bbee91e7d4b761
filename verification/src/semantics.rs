//! What one instruction does, as a function of the machine and of the answers
//! the keyboard has given so far.
//!
//! An instruction may have to ask the keyboard: reading the keyboard status
//! register polls it, and the GETC and IN service routines wait for a key.
//! The answers come as a sequence: `None` for a poll that found no key,
//! `Some(c)` for key `c`. A poll takes the next answer; a wait takes the next
//! key, passing over answers that found none. When the answers run out the
//! instruction stops and asks for the next one (`Flow::Need`), with the output
//! it has produced up to there.

use crate::hardware::{
    read_effect, write_effect, DeviceEffect, OpCodes, TrapCall, CLOCK_ENABLE, COND, KB_STATUS,
    MACHINE_CTRL, MEM_SIZE, PC,
};
use crate::utils::{
    flag_of, flag_word, sign_extend_spec, MASK_IMM5, MASK_OFFSET6, MASK_REG, MASK_SE_11, MASK_SE_9,
};
use vstd::std_specs::convert::TryFromSpec;
use crate::vm::State;
use vstd::prelude::*;

verus! {

/// What an instruction asks of the keyboard.
#[derive(Debug, Clone, Copy, PartialEq, Eq, Structural)]
pub enum KeyRequest {
    /// Is a key waiting? Answered by `None` or by the key.
    Poll,
    /// The next key typed.
    Wait,
}

/// An instruction that the machine cannot carry out.
#[derive(Debug, Clone, Copy, PartialEq, Eq, Structural)]
pub enum Fault {
    /// RTI or the reserved operation.
    Unimplemented,
    /// A trap vector with no service routine.
    UnknownTrap(u16),
    /// STI whose address computation leaves the 16-bit range.
    Overflow,
}

/// The machine in the middle of an instruction: its state, memory and
/// register slots, how many keyboard answers it has taken and what it has
/// written to the console.
pub struct Ctx {
    pub state: State,
    pub mem: Seq<u16>,
    pub reg: Seq<u16>,
    pub pos: int,
    pub out: Seq<u8>,
}

/// How an instruction ends: done, waiting for a keyboard answer, or failed.
/// The last two carry the output produced before they stopped.
pub enum Flow {
    Next(Ctx),
    Need(KeyRequest, Seq<u8>),
    Fault(Fault, Seq<u8>),
}

impl Ctx {
    pub open spec fn with_state(self, state: State) -> Ctx {
        Ctx { state, ..self }
    }

    pub open spec fn with_mem(self, mem: Seq<u16>) -> Ctx {
        Ctx { mem, ..self }
    }

    pub open spec fn with_pos(self, pos: int) -> Ctx {
        Ctx { pos, ..self }
    }

    pub open spec fn with_out(self, out: Seq<u8>) -> Ctx {
        Ctx { out, ..self }
    }

    /// Register slot `r` set to `v`.
    pub open spec fn set_reg(self, r: int, v: u16) -> Ctx {
        Ctx { reg: self.reg.update(r, v), ..self }
    }

    /// Register `r` set to `v` and the condition flags set from `v`.
    pub open spec fn set_flagged(self, r: int, v: u16) -> Ctx {
        self.set_reg(r, v).set_reg(COND as int, flag_word(flag_of(v)))
    }

    /// The machine between instructions: no answers taken, nothing written.
    pub open spec fn settled(self) -> Ctx {
        Ctx { pos: 0, out: Seq::empty(), ..self }
    }

    /// Memory and registers are complete, the condition register holds a
    /// flag and the slot of `RCount`, which names no register, stays zero.
    pub open spec fn ok(self) -> bool {
        &&& self.mem.len() == MEM_SIZE
        &&& self.reg.len() == 256
        &&& self.reg[COND as int] <= 2
        &&& self.reg[10] == 0
        &&& 0 <= self.pos
    }
}

/// The output of a flow.
pub open spec fn flow_out(f: Flow) -> Seq<u8> {
    match f {
        Flow::Next(c) => c.out,
        Flow::Need(_, o) => o,
        Flow::Fault(_, o) => o,
    }
}

/// A finished flow leaves a sound machine that took no answer it was not
/// given.
pub open spec fn flow_ok(f: Flow, keys: Seq<Option<u8>>) -> bool {
    match f {
        Flow::Next(c) => c.ok() && c.pos <= keys.len(),
        _ => true,
    }
}

/// `a` is a prefix of `b`.
pub open spec fn is_prefix(a: Seq<u8>, b: Seq<u8>) -> bool {
    a.len() <= b.len() && a =~= b.subrange(0, a.len() as int)
}

/// `keys2` begins with `keys`.
pub open spec fn extends(keys2: Seq<Option<u8>>, keys: Seq<Option<u8>>) -> bool {
    keys.len() <= keys2.len() && forall|i: int| 0 <= i < keys.len() ==> keys2[i] == keys[i]
}

/// `f2`, computed with more answers than `f1`, agrees with it: a flow that
/// did not need them is unchanged, and one that stopped for an answer had
/// written a prefix of what `f2` writes.
pub open spec fn refines(f1: Flow, f2: Flow) -> bool {
    match f1 {
        Flow::Need(_, o) => is_prefix(o, flow_out(f2)),
        _ => f2 == f1,
    }
}

/// Bytes written for a character: a newline becomes a carriage return and a
/// newline, other characters are written as they are.
pub open spec fn emit(c: u8) -> Seq<u8> {
    if c == 10 {
        seq![13u8, 10u8]
    } else {
        seq![c]
    }
}

/// "Input a character: "
pub open spec fn prompt_text() -> Seq<u8> {
    seq![
        73u8, 110, 112, 117, 116, 32, 97, 32, 99, 104, 97, 114, 97, 99, 116, 101, 114, 58, 32,
    ]
}

/// "\r\n\nVM exited.\r\n"
pub open spec fn halt_text() -> Seq<u8> {
    seq![13u8, 10, 10, 86, 77, 32, 101, 120, 105, 116, 101, 100, 46, 13, 10]
}

// ----- instruction fields: destination (or source of a store), first and
// second source, single bits, sign-extended offsets and immediate, trap vector

pub open spec fn field_dr(op: u16) -> u16 {
    (op >> 9u16) & MASK_REG
}

pub open spec fn field_sr1(op: u16) -> u16 {
    (op >> 6u16) & MASK_REG
}

pub open spec fn field_sr2(op: u16) -> u16 {
    op & MASK_REG
}

pub open spec fn field_bit(op: u16, b: u16) -> bool {
    (op >> b) & 1 == 1
}

pub open spec fn field_off9(op: u16) -> u16 {
    sign_extend_spec(op & MASK_SE_9, 9)
}

pub open spec fn field_off11(op: u16) -> u16 {
    sign_extend_spec(op & MASK_SE_11, 11)
}

pub open spec fn field_off6(op: u16) -> u16 {
    sign_extend_spec(op & MASK_OFFSET6, 6)
}

pub open spec fn field_imm5(op: u16) -> u16 {
    sign_extend_spec(op & MASK_IMM5, 5)
}

pub open spec fn field_trap(op: u16) -> u16 {
    op & 0xFF
}

/// The operation named by the top four bits of an instruction.
pub open spec fn op_code(op: u16) -> OpCodes {
    match OpCodes::try_from_spec((op >> 12u16) as u8) {
        Ok(c) => c,
        Err(_) => OpCodes::OpRES,
    }
}

/// Register fields name one of the eight general-purpose registers, the trap
/// vector is a byte and the operation code has four bits.
pub proof fn lemma_fields(op: u16)
    ensures
        field_dr(op) < 8,
        field_sr1(op) < 8,
        field_sr2(op) < 8,
        field_trap(op) < 256,
        (op >> 12u16) < 16,
{
    assert((op >> 9u16) & 7 < 8) by (bit_vector);
    assert((op >> 6u16) & 7 < 8) by (bit_vector);
    assert(op & 7 < 8) by (bit_vector);
    assert(op & 0xFF < 256) by (bit_vector);
    assert((op >> 12u16) < 16) by (bit_vector);
}

// ----- memory and keyboard -----

/// Reads `addr`; `None` when it is the keyboard status register and no
/// answer is left for the poll.
pub open spec fn read(c: Ctx, keys: Seq<Option<u8>>, addr: u16) -> Option<(Ctx, u16)> {
    if addr == KB_STATUS {
        if 0 <= c.pos < keys.len() {
            let r = read_effect(c.mem, addr, keys[c.pos]);
            Some((c.with_mem(r.0).with_pos(c.pos + 1), r.1))
        } else {
            None
        }
    } else {
        let r = read_effect(c.mem, addr, None);
        Some((c.with_mem(r.0), r.1))
    }
}

/// The first key among the answers from `pos` on, and the position after it.
pub open spec fn wait_key(keys: Seq<Option<u8>>, pos: int) -> Option<(u8, int)>
    decreases keys.len() - pos,
{
    if pos < 0 || pos >= keys.len() {
        None
    } else {
        match keys[pos] {
            Some(k) => Some((k, pos + 1)),
            None => wait_key(keys, pos + 1),
        }
    }
}

/// Whether storing `v` at `addr` clears the clock enable bit of the machine
/// control register.
pub open spec fn stops_clock(addr: u16, v: u16) -> bool {
    write_effect(addr, v) == DeviceEffect::Stop
}

/// Stores `v` at `addr`. A store to the display data register also displays
/// the character in its low byte; one that clears the clock enable bit of
/// the machine control register stops the machine.
pub open spec fn store(c: Ctx, addr: u16, v: u16) -> Flow {
    let c1 = c.with_mem(c.mem.update(addr as int, v));
    match write_effect(addr, v) {
        DeviceEffect::Display(ch) => Flow::Next(c1.with_out(c1.out + emit(ch))),
        DeviceEffect::Stop => Flow::Next(c1.with_state(State::HALTED)),
        DeviceEffect::Nothing => Flow::Next(c1),
    }
}

/// Steps left before `ptr` reaches the keyboard status register.
pub open spec fn dist_to_kb(ptr: u16) -> int {
    if ptr <= KB_STATUS {
        KB_STATUS - ptr
    } else {
        KB_STATUS + 0x10000 - ptr
    }
}

/// Bytes written for a string word: its low byte; when two characters are
/// packed in a word, its low byte and then its high byte, unless the high
/// byte is the zero that pads a string of odd length.
pub open spec fn word_chars(data: u16, packed: bool) -> Seq<u8> {
    if packed {
        if data >> 8u16 == 0 {
            emit((data & 0xFF) as u8)
        } else {
            emit((data & 0xFF) as u8) + emit((data >> 8u16) as u8)
        }
    } else {
        emit(data as u8)
    }
}

/// Writes the string starting at `ptr`, up to the first zero word.
pub open spec fn puts(c: Ctx, keys: Seq<Option<u8>>, ptr: u16, packed: bool) -> Flow
    decreases keys.len() - c.pos, dist_to_kb(ptr),
{
    if c.pos < 0 || c.pos > keys.len() {
        Flow::Need(KeyRequest::Poll, c.out)
    } else {
        match read(c, keys, ptr) {
            None => Flow::Need(KeyRequest::Poll, c.out),
            Some((c2, data)) => if data == 0 {
                Flow::Next(c2)
            } else {
                puts(c2.with_out(c2.out + word_chars(data, packed)), keys, ptr.wrapping_add(1), packed)
            },
        }
    }
}

// ----- instructions; `c` has the program counter past the instruction -----

pub open spec fn exec_br(c: Ctx, op: u16) -> Flow {
    let cond = c.reg[COND as int];
    let taken = (field_bit(op, 11) && cond == 2) || (field_bit(op, 10) && cond == 1) || (
    field_bit(op, 9) && cond == 0);
    if taken {
        Flow::Next(c.set_reg(PC as int, c.reg[PC as int].wrapping_add(field_off9(op))))
    } else {
        Flow::Next(c)
    }
}

pub open spec fn exec_jmp(c: Ctx, op: u16) -> Flow {
    Flow::Next(c.set_reg(PC as int, c.reg[field_sr1(op) as int]))
}

pub open spec fn exec_jsr(c: Ctx, op: u16) -> Flow {
    let c1 = c.set_reg(7, c.reg[PC as int]);
    if field_bit(op, 11) {
        Flow::Next(c1.set_reg(PC as int, c1.reg[PC as int].wrapping_add(field_off11(op))))
    } else {
        Flow::Next(c1.set_reg(PC as int, c1.reg[field_sr1(op) as int]))
    }
}

pub open spec fn exec_st(c: Ctx, op: u16) -> Flow {
    store(c, c.reg[PC as int].wrapping_add(field_off9(op)), c.reg[field_dr(op) as int])
}

pub open spec fn exec_str(c: Ctx, op: u16) -> Flow {
    store(c, c.reg[field_sr1(op) as int].wrapping_add(field_off6(op)), c.reg[field_dr(op) as int])
}

pub open spec fn exec_sti(c: Ctx, keys: Seq<Option<u8>>, op: u16) -> Flow {
    let sum = c.reg[PC as int] + field_off9(op);
    if sum > 0xFFFF {
        Flow::Fault(Fault::Overflow, c.out)
    } else {
        match read(c, keys, sum as u16) {
            None => Flow::Need(KeyRequest::Poll, c.out),
            Some((c2, addr)) => store(c2, addr, c.reg[field_dr(op) as int]),
        }
    }
}

/// LD, LDR: load the word at `addr` into the destination register.
pub open spec fn exec_load(c: Ctx, keys: Seq<Option<u8>>, op: u16, addr: u16) -> Flow {
    match read(c, keys, addr) {
        None => Flow::Need(KeyRequest::Poll, c.out),
        Some((c2, v)) => Flow::Next(c2.set_flagged(field_dr(op) as int, v)),
    }
}

pub open spec fn exec_ldi(c: Ctx, keys: Seq<Option<u8>>, op: u16) -> Flow {
    match read(c, keys, c.reg[PC as int].wrapping_add(field_off9(op))) {
        None => Flow::Need(KeyRequest::Poll, c.out),
        Some((c2, addr)) => exec_load(c2, keys, op, addr),
    }
}

pub open spec fn exec_lea(c: Ctx, op: u16) -> Flow {
    Flow::Next(c.set_flagged(field_dr(op) as int, c.reg[PC as int].wrapping_add(field_off9(op))))
}

/// The second operand of ADD and AND: the immediate or the second source.
pub open spec fn operand2(c: Ctx, op: u16) -> u16 {
    if field_bit(op, 5) {
        field_imm5(op)
    } else {
        c.reg[field_sr2(op) as int]
    }
}

pub open spec fn exec_add(c: Ctx, op: u16) -> Flow {
    Flow::Next(
        c.set_flagged(
            field_dr(op) as int,
            c.reg[field_sr1(op) as int].wrapping_add(operand2(c, op)),
        ),
    )
}

pub open spec fn exec_and(c: Ctx, op: u16) -> Flow {
    Flow::Next(c.set_flagged(field_dr(op) as int, c.reg[field_sr1(op) as int] & operand2(c, op)))
}

pub open spec fn exec_not(c: Ctx, op: u16) -> Flow {
    Flow::Next(c.set_flagged(field_dr(op) as int, !c.reg[field_sr1(op) as int]))
}

/// The service routine of a trap; `c` has R7 already set.
pub open spec fn exec_service(c: Ctx, keys: Seq<Option<u8>>, vect: u16) -> Flow {
    match TrapCall::try_from_spec(vect) {
        Ok(TrapCall::GETC) => match wait_key(keys, c.pos) {
            None => Flow::Need(KeyRequest::Wait, c.out),
            Some((k, p)) => Flow::Next(c.with_pos(p).set_reg(0, k as u16)),
        },
        Ok(TrapCall::OUT) => Flow::Next(c.with_out(c.out + emit(c.reg[0] as u8))),
        Ok(TrapCall::PUTS) => puts(c, keys, c.reg[0], false),
        Ok(TrapCall::IN) => {
            let c1 = c.with_out(c.out + prompt_text());
            match wait_key(keys, c1.pos) {
                None => Flow::Need(KeyRequest::Wait, c1.out),
                Some((k, p)) => Flow::Next(
                    c1.with_pos(p).with_out(c1.out + seq![k, 13u8, 10u8]).set_reg(
                        0,
                        (k as u16) & 0xFF,
                    ),
                ),
            }
        },
        Ok(TrapCall::PUTSP) => puts(c, keys, c.reg[0], true),
        Ok(TrapCall::HALT) => Flow::Next(c.with_out(c.out + halt_text()).with_state(State::HALTED)),
        Err(_) => Flow::Fault(Fault::UnknownTrap(vect), c.out),
    }
}

pub open spec fn exec_trap(c: Ctx, keys: Seq<Option<u8>>, op: u16) -> Flow {
    exec_service(c.set_reg(7, c.reg[PC as int]), keys, field_trap(op))
}

/// Carries out instruction `op`.
pub open spec fn exec_op(c: Ctx, keys: Seq<Option<u8>>, op: u16) -> Flow {
    match op_code(op) {
        OpCodes::OpBR => exec_br(c, op),
        OpCodes::OpADD => exec_add(c, op),
        OpCodes::OpLD => exec_load(c, keys, op, c.reg[PC as int].wrapping_add(field_off9(op))),
        OpCodes::OpST => exec_st(c, op),
        OpCodes::OpJSR => exec_jsr(c, op),
        OpCodes::OpAND => exec_and(c, op),
        OpCodes::OpLDR => exec_load(
            c,
            keys,
            op,
            c.reg[field_sr1(op) as int].wrapping_add(field_off6(op)),
        ),
        OpCodes::OpSTR => exec_str(c, op),
        OpCodes::OpRTI => Flow::Fault(Fault::Unimplemented, c.out),
        OpCodes::OpNOT => exec_not(c, op),
        OpCodes::OpLDI => exec_ldi(c, keys, op),
        OpCodes::OpSTI => exec_sti(c, keys, op),
        OpCodes::OpJMP => exec_jmp(c, op),
        OpCodes::OpRES => Flow::Fault(Fault::Unimplemented, c.out),
        OpCodes::OpLEA => exec_lea(c, op),
        OpCodes::OpTRAP => exec_trap(c, keys, op),
    }
}

/// One step of the machine: a halted machine stays as it is; otherwise a
/// ready machine starts running, the instruction at the program counter is
/// fetched, the program counter moves past it, and the instruction is carried
/// out.
pub open spec fn step_spec(c: Ctx, keys: Seq<Option<u8>>) -> Flow {
    if c.state == State::HALTED {
        Flow::Next(c)
    } else {
        let c0 = if c.state == State::READY {
            c.with_state(State::RUNNING)
        } else {
            c
        };
        let pc = c0.reg[PC as int];
        let c1 = c0.set_reg(PC as int, pc.wrapping_add(1));
        match read(c1, keys, pc) {
            None => Flow::Need(KeyRequest::Poll, c1.out),
            Some((c2, op)) => exec_op(c2, keys, op),
        }
    }
}

// ----- facts about the semantics -----

proof fn lemma_prefix_trans(a: Seq<u8>, b: Seq<u8>, c: Seq<u8>)
    requires
        is_prefix(a, b),
        is_prefix(b, c),
    ensures
        is_prefix(a, c),
{
    assert forall|i: int| 0 <= i < a.len() implies a[i] == c.subrange(0, a.len() as int)[i] by {
        assert(a[i] == b.subrange(0, a.len() as int)[i]);
        assert(b[i] == c.subrange(0, b.len() as int)[i]);
    }
}

proof fn lemma_prefix_append(a: Seq<u8>, b: Seq<u8>)
    ensures
        is_prefix(a, a + b),
{
}

/// A read keeps the machine sound and agrees on more answers.
pub(crate) proof fn lemma_read(c: Ctx, keys: Seq<Option<u8>>, keys2: Seq<Option<u8>>, addr: u16)
    requires
        c.ok(),
        c.pos <= keys.len(),
        extends(keys2, keys),
    ensures
        match read(c, keys, addr) {
            Some((c2, _)) => {
                &&& c2.ok()
                &&& c2.pos <= keys.len()
                &&& c2.out == c.out
                &&& c2.reg == c.reg
                &&& c2.state == c.state
                &&& read(c, keys2, addr) == read(c, keys, addr)
            },
            None => c.pos == keys.len(),
        },
        match read(c, keys2, addr) {
            Some((c2, _)) => {
                &&& c2.ok()
                &&& c2.pos <= keys2.len()
                &&& c2.out == c.out
                &&& c2.reg == c.reg
                &&& c2.state == c.state
            },
            None => true,
        },
{
}

pub(crate) proof fn lemma_wait_bound(keys: Seq<Option<u8>>, pos: int)
    requires
        0 <= pos,
    ensures
        wait_key(keys, pos) matches Some((k, p)) ==> pos < p <= keys.len(),
    decreases keys.len() - pos,
{
    if 0 <= pos < keys.len() && keys[pos] is None {
        lemma_wait_bound(keys, pos + 1);
    }
}

proof fn lemma_wait_agrees(keys: Seq<Option<u8>>, keys2: Seq<Option<u8>>, pos: int)
    requires
        0 <= pos <= keys.len(),
        extends(keys2, keys),
    ensures
        wait_key(keys, pos) is Some ==> wait_key(keys2, pos) == wait_key(keys, pos),
    decreases keys.len() - pos,
{
    if pos < keys.len() && keys[pos] is None {
        lemma_wait_agrees(keys, keys2, pos + 1);
    }
}

/// Writing a string keeps the machine sound and only adds output.
pub(crate) proof fn lemma_puts_grows(c: Ctx, keys: Seq<Option<u8>>, ptr: u16, packed: bool)
    requires
        c.ok(),
        c.pos <= keys.len(),
    ensures
        flow_ok(puts(c, keys, ptr, packed), keys),
        is_prefix(c.out, flow_out(puts(c, keys, ptr, packed))),
    decreases keys.len() - c.pos, dist_to_kb(ptr),
{
    lemma_read(c, keys, keys, ptr);
    match read(c, keys, ptr) {
        None => {},
        Some((c2, data)) => {
            if data != 0 {
                let c3 = c2.with_out(c2.out + word_chars(data, packed));
                lemma_puts_grows(c3, keys, ptr.wrapping_add(1), packed);
                lemma_prefix_append(c.out, word_chars(data, packed));
                lemma_prefix_trans(c.out, c3.out, flow_out(puts(c3, keys, ptr.wrapping_add(1), packed)));
            }
        },
    }
}

/// Writing a string agrees on more answers.
proof fn lemma_puts_agrees(c: Ctx, keys: Seq<Option<u8>>, keys2: Seq<Option<u8>>, ptr: u16, packed: bool)
    requires
        c.ok(),
        c.pos <= keys.len(),
        extends(keys2, keys),
    ensures
        refines(puts(c, keys, ptr, packed), puts(c, keys2, ptr, packed)),
    decreases keys.len() - c.pos, dist_to_kb(ptr),
{
    lemma_read(c, keys, keys2, ptr);
    match read(c, keys, ptr) {
        None => {
            lemma_puts_grows(c, keys2, ptr, packed);
        },
        Some((c2, data)) => {
            if data != 0 {
                let c3 = c2.with_out(c2.out + word_chars(data, packed));
                lemma_puts_agrees(c3, keys, keys2, ptr.wrapping_add(1), packed);
            }
        },
    }
}

proof fn lemma_load_grows(c: Ctx, keys: Seq<Option<u8>>, op: u16, addr: u16)
    requires
        c.ok(),
        c.pos <= keys.len(),
    ensures
        flow_ok(exec_load(c, keys, op, addr), keys),
        is_prefix(c.out, flow_out(exec_load(c, keys, op, addr))),
{
    lemma_fields(op);
    lemma_read(c, keys, keys, addr);
}

proof fn lemma_load_agrees(c: Ctx, keys: Seq<Option<u8>>, keys2: Seq<Option<u8>>, op: u16, addr: u16)
    requires
        c.ok(),
        c.pos <= keys.len(),
        extends(keys2, keys),
    ensures
        refines(exec_load(c, keys, op, addr), exec_load(c, keys2, op, addr)),
{
    lemma_read(c, keys, keys2, addr);
}

proof fn lemma_store_grows(c: Ctx, keys: Seq<Option<u8>>, addr: u16, v: u16)
    requires
        c.ok(),
        c.pos <= keys.len(),
    ensures
        flow_ok(store(c, addr, v), keys),
        is_prefix(c.out, flow_out(store(c, addr, v))),
{
}

proof fn lemma_service_grows(c: Ctx, keys: Seq<Option<u8>>, vect: u16)
    requires
        c.ok(),
        c.pos <= keys.len(),
    ensures
        flow_ok(exec_service(c, keys, vect), keys),
        is_prefix(c.out, flow_out(exec_service(c, keys, vect))),
{
    lemma_wait_bound(keys, c.pos);
    match TrapCall::try_from_spec(vect) {
        Ok(TrapCall::OUT) => lemma_prefix_append(c.out, emit(c.reg[0] as u8)),
        Ok(TrapCall::PUTS) => lemma_puts_grows(c, keys, c.reg[0], false),
        Ok(TrapCall::PUTSP) => lemma_puts_grows(c, keys, c.reg[0], true),
        Ok(TrapCall::IN) => {
            let c1 = c.with_out(c.out + prompt_text());
            lemma_prefix_append(c.out, prompt_text());
            match wait_key(keys, c1.pos) {
                Some((k, p)) => {
                    lemma_prefix_append(c1.out, seq![k, 13u8, 10u8]);
                    lemma_prefix_trans(c.out, c1.out, c1.out + seq![k, 13u8, 10u8]);
                },
                None => {},
            }
        },
        Ok(TrapCall::HALT) => lemma_prefix_append(c.out, halt_text()),
        _ => {},
    }
}

proof fn lemma_service_agrees(c: Ctx, keys: Seq<Option<u8>>, keys2: Seq<Option<u8>>, vect: u16)
    requires
        c.ok(),
        c.pos <= keys.len(),
        extends(keys2, keys),
    ensures
        refines(exec_service(c, keys, vect), exec_service(c, keys2, vect)),
{
    lemma_wait_agrees(keys, keys2, c.pos);
    match TrapCall::try_from_spec(vect) {
        Ok(TrapCall::PUTS) => lemma_puts_agrees(c, keys, keys2, c.reg[0], false),
        Ok(TrapCall::PUTSP) => lemma_puts_agrees(c, keys, keys2, c.reg[0], true),
        Ok(TrapCall::IN) => {
            let c1 = c.with_out(c.out + prompt_text());
            match wait_key(keys2, c1.pos) {
                Some((k, p)) => lemma_prefix_append(c1.out, seq![k, 13u8, 10u8]),
                None => {},
            }
        },
        _ => {},
    }
}

/// Carrying out an instruction keeps the machine sound and only adds output.
proof fn lemma_op_grows(c: Ctx, keys: Seq<Option<u8>>, op: u16)
    requires
        c.ok(),
        c.pos <= keys.len(),
    ensures
        flow_ok(exec_op(c, keys, op), keys),
        is_prefix(c.out, flow_out(exec_op(c, keys, op))),
{
    lemma_fields(op);
    match op_code(op) {
        OpCodes::OpLD => lemma_load_grows(c, keys, op, c.reg[PC as int].wrapping_add(field_off9(op))),
        OpCodes::OpLDR => lemma_load_grows(
            c,
            keys,
            op,
            c.reg[field_sr1(op) as int].wrapping_add(field_off6(op)),
        ),
        OpCodes::OpLDI => {
            let a = c.reg[PC as int].wrapping_add(field_off9(op));
            lemma_read(c, keys, keys, a);
            match read(c, keys, a) {
                Some((c2, addr)) => lemma_load_grows(c2, keys, op, addr),
                None => {},
            }
        },
        OpCodes::OpSTI => {
            let sum = c.reg[PC as int] + field_off9(op);
            if sum <= 0xFFFF {
                lemma_read(c, keys, keys, sum as u16);
                match read(c, keys, sum as u16) {
                    Some((c2, addr)) => lemma_store_grows(c2, keys, addr, c.reg[field_dr(op) as int]),
                    None => {},
                }
            }
        },
        OpCodes::OpTRAP => lemma_service_grows(c.set_reg(7, c.reg[PC as int]), keys, field_trap(op)),
        _ => {},
    }
}

/// Carrying out an instruction agrees on more answers.
proof fn lemma_op_agrees(c: Ctx, keys: Seq<Option<u8>>, keys2: Seq<Option<u8>>, op: u16)
    requires
        c.ok(),
        c.pos <= keys.len(),
        extends(keys2, keys),
    ensures
        refines(exec_op(c, keys, op), exec_op(c, keys2, op)),
{
    lemma_fields(op);
    match op_code(op) {
        OpCodes::OpLD => lemma_load_agrees(
            c,
            keys,
            keys2,
            op,
            c.reg[PC as int].wrapping_add(field_off9(op)),
        ),
        OpCodes::OpLDR => lemma_load_agrees(
            c,
            keys,
            keys2,
            op,
            c.reg[field_sr1(op) as int].wrapping_add(field_off6(op)),
        ),
        OpCodes::OpLDI => {
            let a = c.reg[PC as int].wrapping_add(field_off9(op));
            lemma_read(c, keys, keys2, a);
            match read(c, keys, a) {
                Some((c2, addr)) => lemma_load_agrees(c2, keys, keys2, op, addr),
                None => match read(c, keys2, a) {
                    Some((c2, addr)) => lemma_load_grows(c2, keys2, op, addr),
                    None => {},
                },
            }
        },
        OpCodes::OpSTI => {
            let sum = c.reg[PC as int] + field_off9(op);
            if sum <= 0xFFFF {
                lemma_read(c, keys, keys2, sum as u16);
            }
        },
        OpCodes::OpTRAP => lemma_service_agrees(
            c.set_reg(7, c.reg[PC as int]),
            keys,
            keys2,
            field_trap(op),
        ),
        _ => {},
    }
}

/// A halted machine stays halted: a step changes nothing, writes nothing and
/// asks nothing of the keyboard.
pub proof fn lemma_halted_stays(c: Ctx, keys: Seq<Option<u8>>)
    requires
        c.state == State::HALTED,
    ensures
        step_spec(c, keys) == Flow::Next(c),
{
}

/// Whether an operation moves the program counter somewhere other than the
/// next word: branches, jumps, subroutine calls and traps.
pub open spec fn transfers_control(code: OpCodes) -> bool {
    code == OpCodes::OpBR || code == OpCodes::OpJMP || code == OpCodes::OpJSR || code
        == OpCodes::OpTRAP
}

/// The machine after a step has begun and moved the program counter past the
/// instruction, before the instruction is fetched.
pub open spec fn fetch_ctx(c: Ctx) -> Ctx {
    let c0 = if c.state == State::READY {
        c.with_state(State::RUNNING)
    } else {
        c
    };
    c0.set_reg(PC as int, c.reg[PC as int].wrapping_add(1))
}

/// The instruction word a step fetches: the word at the program counter, as
/// a read sees it; `None` when the program counter is at the keyboard status
/// register and no answer is left for the poll.
pub open spec fn fetched(c: Ctx, keys: Seq<Option<u8>>) -> Option<u16> {
    match read(fetch_ctx(c), keys, c.reg[PC as int]) {
        Some((_, w)) => Some(w),
        None => None,
    }
}

/// The fetched word is the word in memory, except at the device status
/// registers: at the display status register it is the ready word (an RTI,
/// which the machine does not implement), and at the keyboard status register
/// it is the poll's answer, 0 when no key waits (a branch that is never
/// taken) or the ready word; with no answer left the step asks for a poll.
pub proof fn lemma_fetched_word(c: Ctx, keys: Seq<Option<u8>>)
    requires
        c.ok(),
        c.pos == 0,
        c.state != State::HALTED,
    ensures
        c.reg[PC as int] != KB_STATUS && c.reg[PC as int] != crate::hardware::DISP_STATUS ==> fetched(
            c,
            keys,
        ) == Some(c.mem[c.reg[PC as int] as int]),
        c.reg[PC as int] == crate::hardware::DISP_STATUS ==> fetched(c, keys) == Some(
            crate::hardware::STATUS_READY,
        ) && step_spec(c, keys) == Flow::Fault(Fault::Unimplemented, c.out),
        c.reg[PC as int] == KB_STATUS && fetched(c, keys) is Some ==> (fetched(c, keys) == Some(0u16)
            || fetched(c, keys) == Some(crate::hardware::STATUS_READY)),
        fetched(c, keys) is None ==> step_spec(c, keys) == Flow::Need(KeyRequest::Poll, c.out),
{
    assert((0x8000u16 >> 12u16) as u8 == 8) by (bit_vector);
    assert(fetch_ctx(c).out == c.out);
}

/// An instruction that does not transfer control and is carried out leaves
/// the program counter at the word after it.
pub proof fn lemma_step_advances_pc(c: Ctx, keys: Seq<Option<u8>>)
    requires
        c.ok(),
        c.pos == 0,
        c.state != State::HALTED,
    ensures
        fetched(c, keys) matches Some(op) ==> (!transfers_control(op_code(op)) ==> (step_spec(
            c,
            keys,
        ) matches Flow::Next(c2) ==> c2.reg[PC as int] == c.reg[PC as int].wrapping_add(1))),
{
    let c1 = fetch_ctx(c);
    lemma_read(c1, keys, keys, c.reg[PC as int]);
    match read(c1, keys, c.reg[PC as int]) {
        Some((c2, op)) => {
            lemma_fields(op);
            assert(step_spec(c, keys) == exec_op(c2, keys, op));
            lemma_op_keeps_pc(c2, keys, op);
        },
        None => {},
    }
}

/// Carrying out an instruction that does not transfer control leaves the
/// program counter as it is.
proof fn lemma_op_keeps_pc(c: Ctx, keys: Seq<Option<u8>>, op: u16)
    requires
        c.ok(),
        c.pos <= keys.len(),
    ensures
        !transfers_control(op_code(op)) ==> (exec_op(c, keys, op) matches Flow::Next(c2)
            ==> c2.reg[PC as int] == c.reg[PC as int]),
{
    lemma_fields(op);
    match op_code(op) {
        OpCodes::OpLD => lemma_read(c, keys, keys, c.reg[PC as int].wrapping_add(field_off9(op))),
        OpCodes::OpLDR => lemma_read(
            c,
            keys,
            keys,
            c.reg[field_sr1(op) as int].wrapping_add(field_off6(op)),
        ),
        OpCodes::OpLDI => {
            let a = c.reg[PC as int].wrapping_add(field_off9(op));
            lemma_read(c, keys, keys, a);
            match read(c, keys, a) {
                Some((c3, addr)) => lemma_read(c3, keys, keys, addr),
                None => {},
            }
        },
        OpCodes::OpSTI => {
            let sum = c.reg[PC as int] + field_off9(op);
            if sum <= 0xFFFF {
                lemma_read(c, keys, keys, sum as u16);
            }
        },
        _ => {},
    }
}

/// The state a step leaves when it does not stop the machine: a ready
/// machine starts running, others keep their state.
pub open spec fn running_state(s: State) -> State {
    if s == State::READY {
        State::RUNNING
    } else {
        s
    }
}

/// TRAP x25, which halts the machine.
pub open spec fn is_halt_trap(op: u16) -> bool {
    op_code(op) == OpCodes::OpTRAP && field_trap(op) == 0x25
}

proof fn lemma_puts_keeps_state(c: Ctx, keys: Seq<Option<u8>>, ptr: u16, packed: bool)
    requires
        c.ok(),
        c.pos <= keys.len(),
    ensures
        puts(c, keys, ptr, packed) matches Flow::Next(c2) ==> c2.state == c.state,
    decreases keys.len() - c.pos, dist_to_kb(ptr),
{
    lemma_read(c, keys, keys, ptr);
    match read(c, keys, ptr) {
        None => {},
        Some((c2, data)) => {
            if data != 0 {
                lemma_puts_keeps_state(
                    c2.with_out(c2.out + word_chars(data, packed)),
                    keys,
                    ptr.wrapping_add(1),
                    packed,
                );
            }
        },
    }
}

/// How a step changes the machine's state. TRAP x25 always halts it. ST and
/// STR halt it exactly when they store a word with the clock enable bit
/// clear into the machine control register; STI halts it only by leaving
/// such a word there. Every other instruction that is carried out leaves the
/// machine running (see `running_state`). The instruction is the fetched
/// word (see `lemma_fetched_word`).
pub proof fn lemma_step_state(c: Ctx, keys: Seq<Option<u8>>)
    requires
        c.ok(),
        c.pos == 0,
        c.state != State::HALTED,
    ensures
        fetched(c, keys) matches Some(op) ==> ({
            let pc1 = c.reg[PC as int].wrapping_add(1);
            &&& is_halt_trap(op) ==> (step_spec(c, keys) matches Flow::Next(c2) && c2.state
                == State::HALTED)
            &&& op_code(op) == OpCodes::OpST ==> (step_spec(c, keys) matches Flow::Next(c2) && (
            c2.state == State::HALTED <==> stops_clock(
                pc1.wrapping_add(field_off9(op)),
                c.reg[field_dr(op) as int],
            )))
            &&& op_code(op) == OpCodes::OpSTR ==> (step_spec(c, keys) matches Flow::Next(c2) && (
            c2.state == State::HALTED <==> stops_clock(
                c.reg[field_sr1(op) as int].wrapping_add(field_off6(op)),
                c.reg[field_dr(op) as int],
            )))
            &&& op_code(op) == OpCodes::OpSTI ==> (step_spec(c, keys) matches Flow::Next(c2) ==> (
            c2.state == running_state(c.state) || (c2.state == State::HALTED && c2.mem[MACHINE_CTRL as int]
                & CLOCK_ENABLE == 0)))
            &&& (!is_halt_trap(op) && op_code(op) != OpCodes::OpST && op_code(op) != OpCodes::OpSTR
                && op_code(op) != OpCodes::OpSTI) ==> (step_spec(c, keys) matches Flow::Next(c2)
                ==> c2.state == running_state(c.state))
        }),
        fetched(c, keys) is None ==> step_spec(c, keys) is Need,
{
    let c1 = fetch_ctx(c);
    lemma_read(c1, keys, keys, c.reg[PC as int]);
    match read(c1, keys, c.reg[PC as int]) {
        None => {},
        Some((c2, op)) => {
            lemma_fields(op);
            assert(c2.state == running_state(c.state));
            match op_code(op) {
                OpCodes::OpLD => lemma_read(
                    c2,
                    keys,
                    keys,
                    c2.reg[PC as int].wrapping_add(field_off9(op)),
                ),
                OpCodes::OpLDR => lemma_read(
                    c2,
                    keys,
                    keys,
                    c2.reg[field_sr1(op) as int].wrapping_add(field_off6(op)),
                ),
                OpCodes::OpLDI => {
                    let a = c2.reg[PC as int].wrapping_add(field_off9(op));
                    lemma_read(c2, keys, keys, a);
                    match read(c2, keys, a) {
                        Some((c3, addr)) => lemma_read(c3, keys, keys, addr),
                        None => {},
                    }
                },
                OpCodes::OpSTI => {
                    let sum = c2.reg[PC as int] + field_off9(op);
                    if sum <= 0xFFFF {
                        lemma_read(c2, keys, keys, sum as u16);
                    }
                },
                OpCodes::OpTRAP => {
                    let c3 = c2.set_reg(7, c2.reg[PC as int]);
                    lemma_puts_keeps_state(c3, keys, c3.reg[0], false);
                    lemma_puts_keeps_state(c3, keys, c3.reg[0], true);
                },
                _ => {},
            }
        },
    }
}

/// A step keeps the machine sound: memory and registers stay complete, the
/// condition register keeps holding one of the three flags, no keyboard
/// answer is taken that was not given, and output is only ever added to.
pub proof fn lemma_step_sound(c: Ctx, keys: Seq<Option<u8>>)
    requires
        c.ok(),
        c.pos == 0,
    ensures
        flow_ok(step_spec(c, keys), keys),
        is_prefix(c.out, flow_out(step_spec(c, keys))),
{
    if c.state != State::HALTED {
        let c0 = if c.state == State::READY {
            c.with_state(State::RUNNING)
        } else {
            c
        };
        let pc = c0.reg[PC as int];
        let c1 = c0.set_reg(PC as int, pc.wrapping_add(1));
        lemma_read(c1, keys, keys, pc);
        match read(c1, keys, pc) {
            Some((c2, op)) => lemma_op_grows(c2, keys, op),
            None => {},
        }
    }
}

/// Giving a step more keyboard answers than it asked for changes nothing
/// that it did: a step that finished or failed without them ends the same
/// way, and the output of a step that stopped to ask for an answer is a
/// prefix of the output it produces once it has more.
pub proof fn lemma_step_more_answers(c: Ctx, keys: Seq<Option<u8>>, keys2: Seq<Option<u8>>)
    requires
        c.ok(),
        c.pos == 0,
        extends(keys2, keys),
    ensures
        refines(step_spec(c, keys), step_spec(c, keys2)),
{
    if c.state != State::HALTED {
        let c0 = if c.state == State::READY {
            c.with_state(State::RUNNING)
        } else {
            c
        };
        let pc = c0.reg[PC as int];
        let c1 = c0.set_reg(PC as int, pc.wrapping_add(1));
        lemma_read(c1, keys, keys2, pc);
        match read(c1, keys, pc) {
            Some((c2, op)) => lemma_op_agrees(c2, keys, keys2, op),
            None => match read(c1, keys2, pc) {
                Some((c2, op)) => lemma_op_grows(c2, keys2, op),
                None => {},
            },
        }
    }
}

} // verus!
