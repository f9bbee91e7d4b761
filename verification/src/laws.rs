//! What each kind of instruction does, stated in terms of the instruction's
//! bits and the machine before and after the step that carries it out.

use crate::hardware::{COND, DISP_STATUS, KB_STATUS, PC};
use crate::semantics::{
    exec_op, fetch_ctx, fetched, flow_out, is_prefix, lemma_puts_grows, field_imm5, field_off11, field_off6, field_off9, lemma_fetched_word,
    lemma_fields, lemma_read, read, running_state, step_spec, wait_key, Ctx, Fault, Flow, KeyRequest,
};
use crate::utils::sign_extend_spec;
use crate::vm::State;
use vstd::prelude::*;

verus! {

/// The low `9` bits of `op` read as a two's complement number.
pub open spec fn signed9(op: u16) -> int {
    let f = op as int % 512;
    if f >= 256 { f - 512 } else { f }
}

/// The low `11` bits of `op` read as a two's complement number.
pub open spec fn signed11(op: u16) -> int {
    let f = op as int % 2048;
    if f >= 1024 { f - 2048 } else { f }
}

/// The low `6` bits of `op` read as a two's complement number.
pub open spec fn signed6(op: u16) -> int {
    let f = op as int % 64;
    if f >= 32 { f - 64 } else { f }
}

/// The low `5` bits of `op` read as a two's complement number.
pub open spec fn signed5(op: u16) -> int {
    let f = op as int % 32;
    if f >= 16 { f - 32 } else { f }
}

/// `v` reduced to a 16-bit word.
pub open spec fn word(v: int) -> int {
    v % 0x10000
}

proof fn lemma_offsets(op: u16)
    ensures
        field_off9(op) as int == word(signed9(op)),
        field_off11(op) as int == word(signed11(op)),
        field_off6(op) as int == word(signed6(op)),
        field_imm5(op) as int == word(signed5(op)),
{
    assert(sign_extend_spec(op & 0x1FF, 9) as u32 == if op % 512 >= 256 { (op % 512 + 0xFE00) as u32 } else { (op % 512) as u32 }) by (bit_vector);
    assert(sign_extend_spec(op & 0x7FF, 11) as u32 == if op % 2048 >= 1024 { (op % 2048 + 0xF800) as u32 } else { (op % 2048) as u32 }) by (bit_vector);
    assert(sign_extend_spec(op & 0x3F, 6) as u32 == if op % 64 >= 32 { (op % 64 + 0xFFC0) as u32 } else { (op % 64) as u32 }) by (bit_vector);
    assert(sign_extend_spec(op & 0x1F, 5) as u32 == if op % 32 >= 16 { (op % 32 + 0xFFE0) as u32 } else { (op % 32) as u32 }) by (bit_vector);
}

/// The condition flag for a result: 2 (negative) when its top bit is set,
/// 1 when it is zero, 0 (positive) otherwise.
pub open spec fn sign_flag(v: int) -> u16 {
    if v >= 0x8000 {
        2
    } else if v == 0 {
        1
    } else {
        0
    }
}

/// The machine after the step has fetched its instruction.
spec fn fetched_ctx(c: Ctx, keys: Seq<Option<u8>>) -> Ctx {
    read(fetch_ctx(c), keys, c.reg[PC as int]).unwrap().0
}

/// The step that fetched `op` carries it out on the machine with the program
/// counter moved past it; fetching changes nothing else except at the device
/// status registers.
proof fn lemma_fetch(c: Ctx, keys: Seq<Option<u8>>, op: u16)
    requires
        c.ok(),
        c.pos == 0,
        c.state != State::HALTED,
        fetched(c, keys) == Some(op),
    ensures
        step_spec(c, keys) == exec_op(fetched_ctx(c, keys), keys, op),
        fetched_ctx(c, keys).ok(),
        fetched_ctx(c, keys).pos <= keys.len(),
        fetched_ctx(c, keys).out == c.out,
        fetched_ctx(c, keys).reg == c.reg.update(PC as int, word(c.reg[PC as int] + 1) as u16),
        fetched_ctx(c, keys).state == running_state(c.state),
        (c.reg[PC as int] == KB_STATUS || c.reg[PC as int] == DISP_STATUS) ==> (op == 0 || op
            == 0x8000),
        (c.reg[PC as int] != KB_STATUS && c.reg[PC as int] != DISP_STATUS) ==> (fetched_ctx(
            c,
            keys,
        ).mem == c.mem && fetched_ctx(c, keys).pos == 0),
{
    lemma_fetched_word(c, keys);
    let c1 = fetch_ctx(c);
    lemma_read(c1, keys, keys, c.reg[PC as int]);
}

/// The instruction fields, as arithmetic on the instruction word.
proof fn lemma_bits(op: u16)
    ensures
        (op >> 12u16) as u8 == op / 4096,
        (op >> 9u16) & 7 == (op / 512) % 8,
        (op >> 6u16) & 7 == (op / 64) % 8,
        op & 7 == op % 8,
        op & 0xFF == op % 256,
        ((op >> 11u16) & 1 == 1) == ((op / 2048) % 2 == 1),
        ((op >> 10u16) & 1 == 1) == ((op / 1024) % 2 == 1),
        ((op >> 9u16) & 1 == 1) == ((op / 512) % 2 == 1),
        ((op >> 5u16) & 1 == 1) == ((op / 32) % 2 == 1),
        !op == 0xFFFF - op,
        (op >> 15u16 == 1) == (op >= 0x8000),
{
    assert((op >> 12u16) as u8 == op / 4096) by (bit_vector);
    assert((op >> 9u16) & 7 == (op / 512) % 8) by (bit_vector);
    assert((op >> 6u16) & 7 == (op / 64) % 8) by (bit_vector);
    assert(op & 7 == op % 8) by (bit_vector);
    assert(op & 0xFF == op % 256) by (bit_vector);
    assert(((op >> 11u16) & 1 == 1) == ((op / 2048) % 2 == 1)) by (bit_vector);
    assert(((op >> 10u16) & 1 == 1) == ((op / 1024) % 2 == 1)) by (bit_vector);
    assert(((op >> 9u16) & 1 == 1) == ((op / 512) % 2 == 1)) by (bit_vector);
    assert(((op >> 5u16) & 1 == 1) == ((op / 32) % 2 == 1)) by (bit_vector);
    assert(!op == 0xFFFF - op) by (bit_vector);
    assert((op >> 15u16 == 1) == (op >= 0x8000)) by (bit_vector);
}

proof fn lemma_flag(v: u16)
    ensures
        crate::utils::flag_word(crate::utils::flag_of(v)) == sign_flag(v as int),
{
    lemma_bits(v);
}

/// The first key among the answers from `pos` on is taken by a wait: every
/// answer before it found no key; with no key among them the wait finds none.
proof fn lemma_wait_first(keys: Seq<Option<u8>>, pos: int)
    requires
        0 <= pos,
    ensures
        wait_key(keys, pos) matches Some((k, p)) ==> {
            &&& pos < p <= keys.len()
            &&& keys[p - 1] == Some(k)
            &&& forall|j: int| pos <= j < p - 1 ==> keys[j] is None
        },
        wait_key(keys, pos) is None ==> forall|j: int| pos <= j < keys.len() ==> keys[j] is None,
    decreases keys.len() - pos,
{
    if pos < keys.len() && keys[pos] is None {
        lemma_wait_first(keys, pos + 1);
    }
}

/// GETC (TRAP x20) takes the first key among the keyboard answers into R0
/// (its high byte clear), sets R7 to the return address, and writes nothing
/// to the console: the key is not echoed. With no key among the answers the
/// step waits for one.
#[verifier::spinoff_prover]
pub proof fn law_getc(c: Ctx, keys: Seq<Option<u8>>, op: u16)
    requires
        c.ok(),
        c.pos == 0,
        c.state != State::HALTED,
        fetched(c, keys) == Some(op),
        op / 4096 == 15,
        op % 256 == 0x20,
    ensures
        step_spec(c, keys) matches Flow::Next(c2) ==> {
            &&& c2.out == c.out
            &&& c2.reg[0] < 256
            &&& exists|i: int|
                0 <= i < keys.len() && keys[i] == Some(c2.reg[0] as u8) && forall|j: int|
                    0 <= j < i ==> keys[j] is None
            &&& c2.reg[7] == word(c.reg[PC as int] + 1)
            &&& c2.reg[PC as int] == word(c.reg[PC as int] + 1)
            &&& forall|r: int| 0 <= r < 256 && r != 0 && r != 7 && r != PC ==> c2.reg[r] == c.reg[r]
            &&& c2.mem == c.mem
        },
        (forall|j: int| 0 <= j < keys.len() ==> keys[j] is None) ==> step_spec(c, keys)
            == Flow::Need(KeyRequest::Wait, c.out),
{
    lemma_fetch(c, keys, op);
    lemma_bits(op);
    lemma_fields(op);
    lemma_wait_first(keys, 0);
    let c2 = fetched_ctx(c, keys);
    match wait_key(keys, 0) {
        Some((k, p)) => {
            assert(keys[p - 1] == Some(k));
            assert((k as u16) as u8 == k);
        },
        None => {},
    }
}

/// STI stores source register SR (bits 11..9) at the address held in the
/// word at PC+1 plus the sign-extended 9-bit offset; the pointer word itself
/// is left as it was unless it is that address. When that sum leaves the
/// 16-bit range the step fails.
#[verifier::spinoff_prover]
pub proof fn law_sti(c: Ctx, keys: Seq<Option<u8>>, op: u16)
    requires
        c.ok(),
        c.pos == 0,
        c.state != State::HALTED,
        fetched(c, keys) == Some(op),
        op / 4096 == 11,
    ensures
        ({
            let a = word(c.reg[PC as int] + 1) + word(signed9(op));
            &&& a > 0xFFFF ==> step_spec(c, keys) == Flow::Fault(Fault::Overflow, c.out)
            &&& (a <= 0xFFFF && a != KB_STATUS && a != DISP_STATUS) ==> (step_spec(c, keys) matches Flow::Next(c2) && {
                let addr = c.mem[a] as int;
                &&& c2.mem[addr] == c.reg[((op / 512) % 8) as int]
                &&& addr != a ==> c2.mem[a] == c.mem[a]
                &&& forall|m: int| 0 <= m < 0x10000 && m != addr && m != DISP_STATUS ==> c2.mem[m] == c.mem[m]
            })
        }),
{
    lemma_fetch(c, keys, op);
    lemma_bits(op);
    lemma_fields(op);
    lemma_offsets(op);
}

/// BR jumps to PC+1 plus its sign-extended 9-bit offset exactly when one of
/// its n (bit 11), z (bit 10) and p (bit 9) bits names the condition flag
/// (2, 1 and 0), and goes on to PC+1 otherwise; it changes no other register
/// and no memory beyond the fetch.
#[verifier::spinoff_prover]
pub proof fn law_br(c: Ctx, keys: Seq<Option<u8>>, op: u16)
    requires
        c.ok(),
        c.pos == 0,
        c.state != State::HALTED,
        fetched(c, keys) == Some(op),
        op / 4096 == 0,
    ensures
        step_spec(c, keys) matches Flow::Next(c2) && {
            let cond = c.reg[COND as int];
            let pc1 = word(c.reg[PC as int] + 1);
            let taken = ((op / 2048) % 2 == 1 && cond == 2) || ((op / 1024) % 2 == 1 && cond == 1)
                || ((op / 512) % 2 == 1 && cond == 0);
            &&& c2.reg[PC as int] == if taken {
                word(pc1 + signed9(op))
            } else {
                pc1
            }
            &&& forall|r: int| 0 <= r < 256 && r != PC ==> c2.reg[r] == c.reg[r]
        },
{
    lemma_fetch(c, keys, op);
    lemma_bits(op);
    lemma_fields(op);
    let c2 = fetched_ctx(c, keys);
    assert(crate::semantics::op_code(op) == crate::hardware::OpCodes::OpBR);
    lemma_br_regs(c2, op);
}

/// The registers after BR, on the machine with the program counter moved
/// past it.
proof fn lemma_br_regs(c2: Ctx, op: u16)
    requires
        c2.reg.len() == 256,
    ensures
        crate::semantics::exec_br(c2, op) matches Flow::Next(c3) && {
            let cond = c2.reg[COND as int];
            let taken = (crate::semantics::field_bit(op, 11) && cond == 2) || (
            crate::semantics::field_bit(op, 10) && cond == 1) || (crate::semantics::field_bit(op, 9)
                && cond == 0);
            &&& c3.reg[PC as int] == if taken {
                word(c2.reg[PC as int] + signed9(op))
            } else {
                c2.reg[PC as int] as int
            }
            &&& forall|r: int| 0 <= r < 256 && r != PC ==> c3.reg[r] == c2.reg[r]
        },
{
    lemma_offsets(op);
}

/// JSR (bit 11 set) saves the return address PC+1 in R7 and jumps to PC+1
/// plus its sign-extended 11-bit offset; JSRR (bit 11 clear) saves it and
/// jumps to the base register (bits 8..6), read after R7 is set.
#[verifier::spinoff_prover]
pub proof fn law_jsr(c: Ctx, keys: Seq<Option<u8>>, op: u16)
    requires
        c.ok(),
        c.pos == 0,
        c.state != State::HALTED,
        fetched(c, keys) == Some(op),
        op / 4096 == 4,
    ensures
        step_spec(c, keys) matches Flow::Next(c2) && {
            let pc1 = word(c.reg[PC as int] + 1);
            let base = ((op / 64) % 8) as int;
            &&& c2.reg[7] == pc1
            &&& c2.reg[PC as int] == if (op / 2048) % 2 == 1 {
                word(pc1 + signed11(op))
            } else if base == 7 {
                pc1
            } else {
                c.reg[base] as int
            }
            &&& forall|r: int| 0 <= r < 256 && r != 7 && r != PC ==> c2.reg[r] == c.reg[r]
        },
{
    lemma_fetch(c, keys, op);
    lemma_bits(op);
    lemma_fields(op);
    lemma_offsets(op);
    let c2 = fetched_ctx(c, keys);
    assert(crate::semantics::op_code(op) == crate::hardware::OpCodes::OpJSR);
    lemma_jsr_regs(c2, op);
    let pc1 = c2.reg[PC as int];
    assert(pc1 == word(c.reg[PC as int] + 1));
}

/// The registers after JSR or JSRR, on the machine with the program counter
/// moved past it.
proof fn lemma_jsr_regs(c2: Ctx, op: u16)
    requires
        c2.reg.len() == 256,
    ensures
        crate::semantics::exec_jsr(c2, op) matches Flow::Next(c3) && {
            let pc1 = c2.reg[PC as int];
            &&& c3.reg[7] == pc1
            &&& c3.reg[PC as int] == if crate::semantics::field_bit(op, 11) {
                word(pc1 + signed11(op))
            } else if crate::semantics::field_sr1(op) == 7 {
                pc1 as int
            } else {
                c2.reg[crate::semantics::field_sr1(op) as int] as int
            }
            &&& forall|r: int| 0 <= r < 256 && r != 7 && r != PC ==> c3.reg[r] == c2.reg[r]
        },
{
    lemma_offsets(op);
    lemma_fields(op);
}

/// JMP (and RET, base register 7) jumps to the base register (bits 8..6).
#[verifier::spinoff_prover]
pub proof fn law_jmp(c: Ctx, keys: Seq<Option<u8>>, op: u16)
    requires
        c.ok(),
        c.pos == 0,
        c.state != State::HALTED,
        fetched(c, keys) == Some(op),
        op / 4096 == 12,
    ensures
        step_spec(c, keys) matches Flow::Next(c2) && {
            &&& c2.reg[PC as int] == c.reg[((op / 64) % 8) as int]
            &&& forall|r: int| 0 <= r < 256 && r != PC ==> c2.reg[r] == c.reg[r]
        },
{
    lemma_fetch(c, keys, op);
    lemma_bits(op);
    lemma_fields(op);
}

/// The second operand of ADD and AND: the sign-extended 5-bit immediate when
/// bit 5 is set, else source register SR2 (bits 2..0).
pub open spec fn alu_operand(c: Ctx, op: u16) -> int {
    if (op / 32) % 2 == 1 {
        word(signed5(op))
    } else {
        c.reg[(op % 8) as int] as int
    }
}

/// ADD puts the sum of SR1 (bits 8..6) and the second operand, modulo 2^16,
/// into DR (bits 11..9), sets the condition flag from it, moves the program
/// counter to the next word and changes no other register.
#[verifier::spinoff_prover]
pub proof fn law_add(c: Ctx, keys: Seq<Option<u8>>, op: u16)
    requires
        c.ok(),
        c.pos == 0,
        c.state != State::HALTED,
        fetched(c, keys) == Some(op),
        op / 4096 == 1,
    ensures
        step_spec(c, keys) matches Flow::Next(c2) && {
            let d = ((op / 512) % 8) as int;
            let v = word(c.reg[((op / 64) % 8) as int] + alu_operand(c, op));
            &&& c2.reg[d] == v
            &&& c2.reg[COND as int] == sign_flag(v)
            &&& c2.reg[PC as int] == word(c.reg[PC as int] + 1)
            &&& forall|r: int| 0 <= r < 256 && r != d && r != COND && r != PC ==> c2.reg[r] == c.reg[r]
        },
{
    lemma_fetch(c, keys, op);
    lemma_bits(op);
    lemma_fields(op);
    lemma_offsets(op);
    let c2 = fetched_ctx(c, keys);
    let v = c2.reg[((op >> 6u16) & 7) as int].wrapping_add(crate::semantics::operand2(c2, op));
    lemma_flag(v);
}

/// AND puts the bitwise and of SR1 and the second operand into DR, sets the
/// condition flag from it, moves the program counter to the next word and
/// changes no other register.
#[verifier::spinoff_prover]
pub proof fn law_and(c: Ctx, keys: Seq<Option<u8>>, op: u16)
    requires
        c.ok(),
        c.pos == 0,
        c.state != State::HALTED,
        fetched(c, keys) == Some(op),
        op / 4096 == 5,
    ensures
        step_spec(c, keys) matches Flow::Next(c2) && {
            let d = ((op / 512) % 8) as int;
            let v = c.reg[((op / 64) % 8) as int] & (alu_operand(c, op) as u16);
            &&& c2.reg[d] == v
            &&& c2.reg[COND as int] == sign_flag(v as int)
            &&& c2.reg[PC as int] == word(c.reg[PC as int] + 1)
            &&& forall|r: int| 0 <= r < 256 && r != d && r != COND && r != PC ==> c2.reg[r] == c.reg[r]
        },
{
    lemma_fetch(c, keys, op);
    lemma_bits(op);
    lemma_fields(op);
    lemma_offsets(op);
    let c2 = fetched_ctx(c, keys);
    let v = c2.reg[((op >> 6u16) & 7) as int] & crate::semantics::operand2(c2, op);
    lemma_flag(v);
}

/// NOT puts 0xFFFF minus SR1 (its bitwise complement) into DR, sets the
/// condition flag from it, moves the program counter to the next word and
/// changes no other register.
#[verifier::spinoff_prover]
pub proof fn law_not(c: Ctx, keys: Seq<Option<u8>>, op: u16)
    requires
        c.ok(),
        c.pos == 0,
        c.state != State::HALTED,
        fetched(c, keys) == Some(op),
        op / 4096 == 9,
    ensures
        step_spec(c, keys) matches Flow::Next(c2) && {
            let d = ((op / 512) % 8) as int;
            let v = 0xFFFF - c.reg[((op / 64) % 8) as int];
            &&& c2.reg[d] == v
            &&& c2.reg[COND as int] == sign_flag(v)
            &&& c2.reg[PC as int] == word(c.reg[PC as int] + 1)
            &&& forall|r: int| 0 <= r < 256 && r != d && r != COND && r != PC ==> c2.reg[r] == c.reg[r]
        },
{
    lemma_fetch(c, keys, op);
    lemma_bits(op);
    lemma_fields(op);
    let c2 = fetched_ctx(c, keys);
    let s = c2.reg[((op >> 6u16) & 7) as int];
    lemma_bits(s);
    lemma_flag(!s);
}

/// An address whose read has no device effect.
pub open spec fn plain(a: int) -> bool {
    a != KB_STATUS && a != DISP_STATUS
}

/// The console bytes for character code `b`: a newline is written as a
/// carriage return and a newline.
pub open spec fn console_bytes(b: int) -> Seq<u8> {
    if b == 10 {
        seq![13u8, 10u8]
    } else {
        seq![b as u8]
    }
}

proof fn lemma_byte_bits(w: u16)
    ensures
        (w as u8) as int == w % 256,
        ((w & 0xFF) as u8) as int == w % 256,
        ((w >> 8u16) as u8) as int == w / 256,
        (w >> 8u16 == 0) == (w / 256 == 0),
{
    assert((w as u8) as u16 == w % 256) by (bit_vector);
    assert(((w & 0xFF) as u8) as u16 == w % 256) by (bit_vector);
    assert(((w >> 8u16) as u8) as u16 == w / 256) by (bit_vector);
    assert((w >> 8u16 == 0) == (w / 256 == 0)) by (bit_vector);
}

/// Loading the word at a plain address into DR, on the machine with the
/// program counter moved past the instruction.
proof fn lemma_load_plain(c2: Ctx, keys: Seq<Option<u8>>, op: u16, addr: u16)
    requires
        c2.ok(),
        c2.pos <= keys.len(),
        plain(addr as int),
    ensures
        crate::semantics::exec_load(c2, keys, op, addr) matches Flow::Next(c3) && {
            let d = ((op / 512) % 8) as int;
            &&& c3.reg[d] == c2.mem[addr as int]
            &&& c3.reg[COND as int] == sign_flag(c2.mem[addr as int] as int)
            &&& c3.reg[PC as int] == c2.reg[PC as int]
            &&& c3.mem == c2.mem
        },
{
    lemma_bits(op);
    lemma_fields(op);
    lemma_flag(c2.mem[addr as int]);
}

/// LD loads the word at PC+1 plus the sign-extended 9-bit offset into DR
/// (bits 11..9) and sets the condition flag from it; memory is unchanged.
#[verifier::spinoff_prover]
pub proof fn law_ld(c: Ctx, keys: Seq<Option<u8>>, op: u16)
    requires
        c.ok(),
        c.pos == 0,
        c.state != State::HALTED,
        fetched(c, keys) == Some(op),
        op / 4096 == 2,
        plain(word(word(c.reg[PC as int] + 1) + signed9(op))),
    ensures
        step_spec(c, keys) matches Flow::Next(c2) && {
            let a = word(word(c.reg[PC as int] + 1) + signed9(op));
            let d = ((op / 512) % 8) as int;
            &&& c2.reg[d] == c.mem[a]
            &&& c2.reg[COND as int] == sign_flag(c.mem[a] as int)
            &&& c2.reg[PC as int] == word(c.reg[PC as int] + 1)
            &&& c2.mem == c.mem
        },
{
    lemma_fetch(c, keys, op);
    lemma_bits(op);
    lemma_fields(op);
    lemma_offsets(op);
    let c2 = fetched_ctx(c, keys);
    assert(crate::semantics::op_code(op) == crate::hardware::OpCodes::OpLD);
    let a = c2.reg[PC as int].wrapping_add(field_off9(op));
    lemma_wrap_offset(c2.reg[PC as int], op);
    assert(step_spec(c, keys) == crate::semantics::exec_load(c2, keys, op, a));
    lemma_load_plain(c2, keys, op, a);
}

proof fn lemma_wrap(x: u16, y: u16, s: int)
    requires
        -0x8000 <= s < 0x8000,
        y as int == word(s),
    ensures
        x.wrapping_add(y) as int == word(x + s),
{
    if s >= 0 {
        assert(word(s) == s);
    } else {
        assert(word(s) == s + 0x10000);
    }
    if x + s >= 0 {
        assert(word(x + s) == if x + s >= 0x10000 { x + s - 0x10000 } else { x + s });
    } else {
        assert(word(x + s) == x + s + 0x10000);
    }
}

proof fn lemma_wrap_offset(x: u16, op: u16)
    ensures
        x.wrapping_add(field_off6(op)) as int == word(x + signed6(op)),
        x.wrapping_add(field_off9(op)) as int == word(x + signed9(op)),
{
    lemma_offsets(op);
    lemma_wrap(x, field_off6(op), signed6(op));
    lemma_wrap(x, field_off9(op), signed9(op));
}

/// LDR loads the word at the base register (bits 8..6) plus the
/// sign-extended 6-bit offset into DR and sets the condition flag from it.
#[verifier::spinoff_prover]
#[verifier::rlimit(80)]
pub proof fn law_ldr(c: Ctx, keys: Seq<Option<u8>>, op: u16)
    requires
        c.ok(),
        c.pos == 0,
        c.state != State::HALTED,
        fetched(c, keys) == Some(op),
        op / 4096 == 6,
        plain(word(c.reg[((op / 64) % 8) as int] + signed6(op))),
    ensures
        step_spec(c, keys) matches Flow::Next(c2) && {
            let a = word(c.reg[((op / 64) % 8) as int] + signed6(op));
            let d = ((op / 512) % 8) as int;
            &&& c2.reg[d] == c.mem[a]
            &&& c2.reg[COND as int] == sign_flag(c.mem[a] as int)
            &&& c2.reg[PC as int] == word(c.reg[PC as int] + 1)
            &&& c2.mem == c.mem
        },
{
    lemma_fetch(c, keys, op);
    lemma_bits(op);
    lemma_fields(op);
    lemma_offsets(op);
    let c2 = fetched_ctx(c, keys);
    assert(crate::semantics::op_code(op) == crate::hardware::OpCodes::OpLDR);
    let b = ((op >> 6u16) & 7) as int;
    assert(c2.reg[b] == c.reg[b]);
    let a = c2.reg[b].wrapping_add(field_off6(op));
    lemma_wrap_offset(c2.reg[b], op);
    assert(step_spec(c, keys) == crate::semantics::exec_load(c2, keys, op, a));
    lemma_load_plain(c2, keys, op, a);
}

/// LDI loads into DR the word at the address held at PC+1 plus the
/// sign-extended 9-bit offset, and sets the condition flag from it.
#[verifier::spinoff_prover]
#[verifier::rlimit(80)]
pub proof fn law_ldi(c: Ctx, keys: Seq<Option<u8>>, op: u16)
    requires
        c.ok(),
        c.pos == 0,
        c.state != State::HALTED,
        fetched(c, keys) == Some(op),
        op / 4096 == 10,
        plain(word(word(c.reg[PC as int] + 1) + signed9(op))),
        plain(c.mem[word(word(c.reg[PC as int] + 1) + signed9(op))] as int),
    ensures
        step_spec(c, keys) matches Flow::Next(c2) && {
            let p = c.mem[word(word(c.reg[PC as int] + 1) + signed9(op))] as int;
            let d = ((op / 512) % 8) as int;
            &&& c2.reg[d] == c.mem[p]
            &&& c2.reg[COND as int] == sign_flag(c.mem[p] as int)
            &&& c2.reg[PC as int] == word(c.reg[PC as int] + 1)
            &&& c2.mem == c.mem
        },
{
    lemma_fetch(c, keys, op);
    lemma_bits(op);
    lemma_fields(op);
    lemma_offsets(op);
    let c2 = fetched_ctx(c, keys);
    assert(crate::semantics::op_code(op) == crate::hardware::OpCodes::OpLDI);
    let a = c2.reg[PC as int].wrapping_add(field_off9(op));
    assert(read(c2, keys, a) == Some((c2, c2.mem[a as int])));
    lemma_load_plain(c2, keys, op, c2.mem[a as int]);
}

/// LEA puts PC+1 plus the sign-extended 9-bit offset into DR and sets the
/// condition flag from it, without reading memory.
#[verifier::spinoff_prover]
#[verifier::rlimit(80)]
pub proof fn law_lea(c: Ctx, keys: Seq<Option<u8>>, op: u16)
    requires
        c.ok(),
        c.pos == 0,
        c.state != State::HALTED,
        fetched(c, keys) == Some(op),
        op / 4096 == 14,
    ensures
        step_spec(c, keys) matches Flow::Next(c2) && {
            let d = ((op / 512) % 8) as int;
            let v = word(word(c.reg[PC as int] + 1) + signed9(op));
            &&& c2.reg[d] == v
            &&& c2.reg[COND as int] == sign_flag(v)
            &&& c2.mem == c.mem
        },
{
    lemma_fetch(c, keys, op);
    lemma_bits(op);
    lemma_fields(op);
    lemma_offsets(op);
    let c2 = fetched_ctx(c, keys);
    assert(crate::semantics::op_code(op) == crate::hardware::OpCodes::OpLEA);
    lemma_flag(c2.reg[PC as int].wrapping_add(field_off9(op)));
}

/// ST stores SR (bits 11..9) at PC+1 plus the sign-extended 9-bit offset and
/// changes no other word of memory.
#[verifier::spinoff_prover]
#[verifier::rlimit(80)]
pub proof fn law_st(c: Ctx, keys: Seq<Option<u8>>, op: u16)
    requires
        c.ok(),
        c.pos == 0,
        c.state != State::HALTED,
        fetched(c, keys) == Some(op),
        op / 4096 == 3,
    ensures
        step_spec(c, keys) matches Flow::Next(c2) && c2.mem == c.mem.update(
            word(word(c.reg[PC as int] + 1) + signed9(op)),
            c.reg[((op / 512) % 8) as int],
        ) && c2.reg[PC as int] == word(c.reg[PC as int] + 1),
{
    lemma_fetch(c, keys, op);
    lemma_bits(op);
    lemma_fields(op);
    lemma_offsets(op);
    assert(crate::semantics::op_code(op) == crate::hardware::OpCodes::OpST);
}

/// STR stores SR (bits 11..9) at the base register (bits 8..6) plus the
/// sign-extended 6-bit offset and changes no other word of memory.
#[verifier::spinoff_prover]
#[verifier::rlimit(80)]
pub proof fn law_str(c: Ctx, keys: Seq<Option<u8>>, op: u16)
    requires
        c.ok(),
        c.pos == 0,
        c.state != State::HALTED,
        fetched(c, keys) == Some(op),
        op / 4096 == 7,
    ensures
        step_spec(c, keys) matches Flow::Next(c2) && c2.mem == c.mem.update(
            word(c.reg[((op / 64) % 8) as int] + signed6(op)),
            c.reg[((op / 512) % 8) as int],
        ) && c2.reg[PC as int] == word(c.reg[PC as int] + 1),
{
    lemma_fetch(c, keys, op);
    lemma_bits(op);
    lemma_fields(op);
    lemma_offsets(op);
    assert(crate::semantics::op_code(op) == crate::hardware::OpCodes::OpSTR);
}

/// "Input a character: "
pub open spec fn prompt_bytes() -> Seq<u8> {
    seq![
        73u8, 110, 112, 117, 116, 32, 97, 32, 99, 104, 97, 114, 97, 99, 116, 101, 114, 58, 32,
    ]
}

/// The console services: OUT writes the character in the low byte of R0;
/// IN writes the prompt, then the key it takes followed by a carriage return
/// and newline, and puts the key into R0; HALT writes the exit message and
/// halts. Each saves the return address in R7.
#[verifier::spinoff_prover]
pub proof fn law_console_traps(c: Ctx, keys: Seq<Option<u8>>, op: u16)
    requires
        c.ok(),
        c.pos == 0,
        c.state != State::HALTED,
        fetched(c, keys) == Some(op),
        op / 4096 == 15,
    ensures
        ({
            let pc1 = word(c.reg[PC as int] + 1);
            &&& op % 256 == 0x21 ==> (step_spec(c, keys) matches Flow::Next(c2) && c2.out == c.out
                + console_bytes((c.reg[0] % 256) as int) && c2.reg[7] == pc1 && c2.reg[0] == c.reg[0]
                && c2.state == running_state(c.state))
            &&& op % 256 == 0x25 ==> (step_spec(c, keys) matches Flow::Next(c2) && c2.out == c.out
                + seq![13u8, 10, 10, 86, 77, 32, 101, 120, 105, 116, 101, 100, 46, 13, 10]
                && c2.state == State::HALTED && c2.reg[7] == pc1)
            &&& op % 256 == 0x23 ==> (step_spec(c, keys) matches Flow::Next(c2) ==> (c2.out == c.out
                + prompt_bytes() + seq![c2.reg[0] as u8, 13u8, 10u8] && c2.reg[0] < 256 && exists|i: int|
                0 <= i < keys.len() && keys[i] == Some(c2.reg[0] as u8) && forall|j: int|
                    0 <= j < i ==> keys[j] is None))
            &&& op % 256 == 0x23 ==> (step_spec(c, keys) matches Flow::Need(_, o) ==> o == c.out
                + prompt_bytes())
        }),
{
    lemma_fetch(c, keys, op);
    lemma_bits(op);
    lemma_fields(op);
    let c2 = fetched_ctx(c, keys);
    lemma_byte_bits(c.reg[0]);
    lemma_wait_first(keys, 0);
    match wait_key(keys, 0) {
        Some((k, p)) => {
            assert(keys[p - 1] == Some(k));
            assert((((k as u16) & 0xFF) as u8) == k) by (bit_vector);
            assert(((k as u16) & 0xFF) < 256) by (bit_vector);
        },
        None => {},
    }
}

/// PUTS and PUTSP write the string at the address in R0: when its first word
/// is zero they write nothing; otherwise what they write begins with that
/// word's low byte, and for PUTSP then its high byte unless that byte is the
/// zero that pads an odd-length string.
#[verifier::spinoff_prover]
pub proof fn law_string_traps(c: Ctx, keys: Seq<Option<u8>>, op: u16)
    requires
        c.ok(),
        c.pos == 0,
        c.state != State::HALTED,
        fetched(c, keys) == Some(op),
        op / 4096 == 15,
        op % 256 == 0x22 || op % 256 == 0x24,
        plain(c.reg[0] as int),
    ensures
        ({
            let w = c.mem[c.reg[0] as int];
            let first = if op % 256 == 0x22 {
                console_bytes((w % 256) as int)
            } else if w / 256 == 0 {
                console_bytes((w % 256) as int)
            } else {
                console_bytes((w % 256) as int) + console_bytes((w / 256) as int)
            };
            &&& w == 0 ==> (step_spec(c, keys) matches Flow::Next(c2) && c2.out == c.out && c2.mem
                == c.mem)
            &&& w != 0 ==> is_prefix(c.out + first, flow_out(step_spec(c, keys)))
        }),
{
    lemma_fetch(c, keys, op);
    lemma_bits(op);
    lemma_fields(op);
    let c2 = fetched_ctx(c, keys);
    let c3 = c2.set_reg(7, c2.reg[PC as int]);
    let p = c.reg[0];
    let w = c.mem[p as int];
    lemma_byte_bits(w);
    lemma_read(c3, keys, keys, p);
    let packed = op % 256 == 0x24;
    if w != 0 {
        let c4 = c3.with_out(c3.out + crate::semantics::word_chars(w, packed));
        lemma_puts_grows(c4, keys, p.wrapping_add(1), packed);
    }
}

} // verus!
