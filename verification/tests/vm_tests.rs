use lc3vm::hardware::{Registers, KB_STATUS};
use lc3vm::semantics::{Fault, KeyRequest};
use lc3vm::vm::{Progress, State, VM};

fn image(origin: u16, words: &[u16]) -> Vec<u8> {
    let mut bytes = vec![(origin >> 8) as u8, origin as u8];
    for w in words {
        bytes.push((w >> 8) as u8);
        bytes.push(*w as u8);
    }
    bytes
}

fn machine(origin: u16, words: &[u16]) -> VM {
    let mut vm = VM::new();
    vm.load_image(&image(origin, words));
    vm
}

fn run(vm: &mut VM) -> (Progress, Vec<u8>) {
    let report = vm.step();
    (report.progress, report.output)
}

#[test]
fn new_machine() {
    let vm = VM::new();
    assert_eq!(*vm.get_state(), State::INITIALIZED);
    assert_eq!(vm.register(Registers::RCond), 1);
    assert_eq!(vm.register(Registers::RProgramCounter), 0);
    assert_eq!(vm.register(Registers::R0), 0);
}

#[test]
fn load_sets_pc_and_ready() {
    let vm = machine(0x3000, &[0x1265]);
    assert_eq!(*vm.get_state(), State::READY);
    assert_eq!(vm.register(Registers::RProgramCounter), 0x3000);
}

#[test]
fn add_immediate_then_halt() {
    let mut vm = machine(0x3000, &[0x1265, 0xF025]);
    let (p, out) = run(&mut vm);
    assert_eq!(p, Progress::Done(State::RUNNING));
    assert!(out.is_empty());
    assert_eq!(vm.register(Registers::R1), 5);
    assert_eq!(vm.register(Registers::RCond), 0);
    assert_eq!(vm.register(Registers::RProgramCounter), 0x3001);
    let (p, out) = run(&mut vm);
    assert_eq!(p, Progress::Done(State::HALTED));
    assert_eq!(out, b"\r\n\nVM exited.\r\n".to_vec());
    assert_eq!(vm.register(Registers::R7), 0x3002);
    let (p, out) = run(&mut vm);
    assert_eq!(p, Progress::Done(State::HALTED));
    assert!(out.is_empty());
    assert_eq!(vm.register(Registers::RProgramCounter), 0x3002);
}

#[test]
fn add_negative_and_registers() {
    // ADD R1, R1, #-1 ; ADD R2, R1, R1
    let mut vm = machine(0x3000, &[0x127F, 0x1441]);
    run(&mut vm);
    assert_eq!(vm.register(Registers::R1), 0xFFFF);
    assert_eq!(vm.register(Registers::RCond), 2);
    run(&mut vm);
    assert_eq!(vm.register(Registers::R2), 0xFFFE);
    assert_eq!(vm.register(Registers::RCond), 2);
}

#[test]
fn and_not() {
    // ADD R1, R1, #5 ; AND R3, R1, #0 ; NOT R4, R1 ; AND R5, R1, R4
    let mut vm = machine(0x3000, &[0x1265, 0x5660, 0x987F, 0x5A44]);
    run(&mut vm);
    run(&mut vm);
    assert_eq!(vm.register(Registers::R3), 0);
    assert_eq!(vm.register(Registers::RCond), 1);
    run(&mut vm);
    assert_eq!(vm.register(Registers::R4), 0xFFFA);
    assert_eq!(vm.register(Registers::RCond), 2);
    run(&mut vm);
    assert_eq!(vm.register(Registers::R5), 0);
}

#[test]
fn branch_taken_and_not_taken() {
    // BRz +1 (flag is Zero after load) ; skipped ; BRp +5 (not taken)
    let mut vm = machine(0x3000, &[0x0401, 0x1265, 0x0205]);
    run(&mut vm);
    assert_eq!(vm.register(Registers::RProgramCounter), 0x3002);
    run(&mut vm);
    assert_eq!(vm.register(Registers::RProgramCounter), 0x3003);
    // BRnzp -1 jumps back to itself
    let mut vm = machine(0x3000, &[0x0FFF]);
    run(&mut vm);
    assert_eq!(vm.register(Registers::RProgramCounter), 0x3000);
}

#[test]
fn load_store_lea() {
    // LD R0, +2 ; ST R0, +2 ; LEA R5, #-1 ; data 0x1234 ; (target)
    let mut vm = machine(0x3000, &[0x2002, 0x3002, 0xEBFF, 0x1234, 0]);
    run(&mut vm);
    assert_eq!(vm.register(Registers::R0), 0x1234);
    assert_eq!(vm.register(Registers::RCond), 0);
    run(&mut vm);
    // LD R6, +1 reads the stored word back
    run(&mut vm);
    assert_eq!(vm.register(Registers::R5), 0x3002);
    let mut vm2 = machine(0x3000, &[0x2002, 0x3002, 0x2C01, 0x1234, 0]);
    run(&mut vm2);
    run(&mut vm2);
    run(&mut vm2);
    assert_eq!(vm2.register(Registers::R6), 0x1234);
}

#[test]
fn base_offset_and_indirect() {
    // LEA R2,#6 ; LDR R6,R2,#1 ; STR R6,R2,#2 ; LDI R0,+3 ; STI R2,+2 ; LDI R1,+1 ; HALT
    // 0x3007: pointer 0x3009 ; 0x3008: 0x4242 ; 0x3009: 0
    let words = [0xE406, 0x6C81, 0x7C82, 0xA003, 0xB402, 0xA201, 0xF025, 0x3009, 0x4242, 0];
    let mut vm = machine(0x3000, &words);
    run(&mut vm);
    assert_eq!(vm.register(Registers::R2), 0x3007);
    run(&mut vm);
    assert_eq!(vm.register(Registers::R6), 0x4242);
    run(&mut vm);
    run(&mut vm);
    assert_eq!(vm.register(Registers::R0), 0x4242);
    assert_eq!(vm.register(Registers::RCond), 0);
    run(&mut vm);
    run(&mut vm);
    assert_eq!(vm.register(Registers::R1), 0x3007);
}

#[test]
fn jumps() {
    // LEA R2, #3 ; JSRR R2 -> 0x3004 ; ... ; at 0x3004: RET
    let mut vm = machine(0x3000, &[0xE403, 0x4080, 0xF025, 0, 0xC1C0]);
    run(&mut vm);
    run(&mut vm);
    assert_eq!(vm.register(Registers::RProgramCounter), 0x3004);
    assert_eq!(vm.register(Registers::R7), 0x3002);
    run(&mut vm);
    assert_eq!(vm.register(Registers::RProgramCounter), 0x3002);
    // JSR +2 ; JMP R7
    let mut vm = machine(0x3000, &[0x4802, 0, 0, 0xC1C0]);
    run(&mut vm);
    assert_eq!(vm.register(Registers::RProgramCounter), 0x3003);
    assert_eq!(vm.register(Registers::R7), 0x3001);
    run(&mut vm);
    assert_eq!(vm.register(Registers::RProgramCounter), 0x3001);
    // LEA R2, #1 ; JMP R2
    let mut vm = machine(0x3000, &[0xE401, 0xC080]);
    run(&mut vm);
    run(&mut vm);
    assert_eq!(vm.register(Registers::RProgramCounter), 0x3002);
}

#[test]
fn out_and_puts() {
    // LEA R0, #3 ; PUTS ; AND R0,R0,#0 ; ADD R0,R0,#10 ; OUT
    let mut vm = machine(0x3000, &[0xE003, 0xF022, 0x5020, 0x102A, 0xF021, 'h' as u16, 'i' as u16, 10, 0]);
    // LEA points at 0x3004: fix by reading the words there
    let (_, out) = run(&mut vm);
    assert!(out.is_empty());
    assert_eq!(vm.register(Registers::R0), 0x3004);
    let mut vm = machine(0x3000, &[0xE002, 0xF022, 0xF025, 'h' as u16, 'i' as u16, 10, 0]);
    run(&mut vm);
    let (p, out) = run(&mut vm);
    assert_eq!(p, Progress::Done(State::RUNNING));
    assert_eq!(out, b"hi\r\n".to_vec());
    // OUT of a newline
    let mut vm = machine(0x3000, &[0x5020, 0x102A, 0xF021, 0x1021, 0xF021]);
    run(&mut vm);
    run(&mut vm);
    let (_, out) = run(&mut vm);
    assert_eq!(out, b"\r\n".to_vec());
    run(&mut vm);
    let (_, out) = run(&mut vm);
    assert_eq!(out, vec![11u8]);
}

#[test]
fn putsp_two_per_word() {
    // LEA R0, #2 ; PUTSP ; HALT ; "ab" "c\0" 0
    let mut vm = machine(0x3000, &[0xE002, 0xF024, 0xF025, 0x6261, 0x0063, 0]);
    run(&mut vm);
    let (_, out) = run(&mut vm);
    assert_eq!(out, vec![b'a', b'b', b'c']);
}

#[test]
fn putsp_odd_length_pad_is_not_written() {
    // LEA R0, #2 ; PUTSP ; HALT ; "A\0" 0
    let mut vm = machine(0x3000, &[0xE002, 0xF024, 0xF025, 0x0041, 0]);
    run(&mut vm);
    let (_, out) = run(&mut vm);
    assert_eq!(out, b"A".to_vec());
    // a newline in the high byte becomes a carriage return and a newline
    let mut vm = machine(0x3000, &[0xE002, 0xF024, 0xF025, 0x0A41, 0]);
    run(&mut vm);
    let (_, out) = run(&mut vm);
    assert_eq!(out, b"A\r\n".to_vec());
}

#[test]
fn store_to_display_data_displays() {
    // LD R2, +3 ; LD R0, +3 ; STR R0, R2, #0 ; HALT ; .FILL DISP_DATA ; .FILL 0x1258
    let mut vm = machine(0x3000, &[0x2403, 0x2003, 0x7080, 0xF025, 0xFE06, 0x1258]);
    run(&mut vm);
    run(&mut vm);
    let (p, out) = run(&mut vm);
    assert_eq!(p, Progress::Done(State::RUNNING));
    assert_eq!(out, b"X".to_vec());
}

#[test]
fn clearing_the_clock_enable_bit_stops() {
    // LD R2, +4 ; ADD R0, R0, #1 ; STR R0, R2, #0 ; HALT-less loop ; .FILL MACHINE_CTRL
    let mut vm = machine(0x3000, &[0x2404, 0x1021, 0x7080, 0x0FFC, 0, 0xFFFE]);
    run(&mut vm);
    run(&mut vm);
    let (p, out) = run(&mut vm);
    assert_eq!(p, Progress::Done(State::HALTED));
    assert!(out.is_empty());
    let (p, _) = run(&mut vm);
    assert_eq!(p, Progress::Done(State::HALTED));
    assert_eq!(vm.register(Registers::RProgramCounter), 0x3003);
    // a word with the clock enable bit set does not stop the machine
    // LD R2, +3 ; LD R0, +3 ; STR R0, R2, #0 ; .. ; .FILL MACHINE_CTRL ; .FILL 0x8000
    let mut vm = machine(0x3000, &[0x2403, 0x2003, 0x7080, 0, 0xFFFE, 0x8000]);
    run(&mut vm);
    run(&mut vm);
    let (p, _) = run(&mut vm);
    assert_eq!(p, Progress::Done(State::RUNNING));
}

#[test]
fn getc_waits_for_a_key() {
    let mut vm = machine(0x3000, &[0xF020]);
    let (p, out) = run(&mut vm);
    assert_eq!(p, Progress::AwaitKey(KeyRequest::Wait));
    assert!(out.is_empty());
    assert_eq!(vm.register(Registers::RProgramCounter), 0x3000);
    vm.supply_key(Some(b'q'));
    let (p, _) = run(&mut vm);
    assert_eq!(p, Progress::Done(State::RUNNING));
    assert_eq!(vm.register(Registers::R0), b'q' as u16);
    assert_eq!(vm.register(Registers::R7), 0x3001);
    assert_eq!(vm.register(Registers::RProgramCounter), 0x3001);
}

#[test]
fn wait_passes_over_empty_polls() {
    let mut vm = machine(0x3000, &[0xF020]);
    run(&mut vm);
    vm.supply_key(None);
    let (p, _) = run(&mut vm);
    assert_eq!(p, Progress::AwaitKey(KeyRequest::Wait));
    vm.supply_key(Some(b'z'));
    run(&mut vm);
    assert_eq!(vm.register(Registers::R0), b'z' as u16);
}

#[test]
fn in_prompts_then_echoes() {
    let mut vm = machine(0x3000, &[0xF023]);
    let (p, out) = run(&mut vm);
    assert_eq!(p, Progress::AwaitKey(KeyRequest::Wait));
    assert_eq!(out, b"Input a character: ".to_vec());
    vm.supply_key(Some(b'k'));
    let (p, out) = run(&mut vm);
    assert_eq!(p, Progress::Done(State::RUNNING));
    assert_eq!(out, b"k\r\n".to_vec());
    assert_eq!(vm.register(Registers::R0), b'k' as u16);
}

#[test]
fn polling_the_keyboard_status() {
    // LDI R0, +1 ; HALT ; .FILL KB_STATUS ; LDI R1, +0 via second program
    let mut vm = machine(0x3000, &[0xA001, 0xF025, KB_STATUS]);
    let (p, _) = run(&mut vm);
    assert_eq!(p, Progress::AwaitKey(KeyRequest::Poll));
    vm.supply_key(None);
    let (p, _) = run(&mut vm);
    assert_eq!(p, Progress::Done(State::RUNNING));
    assert_eq!(vm.register(Registers::R0), 0);
    let mut vm = machine(0x3000, &[0xA002, 0xA002, 0xF025, KB_STATUS, 0xFE02]);
    run(&mut vm);
    vm.supply_key(Some(b'y'));
    run(&mut vm);
    assert_eq!(vm.register(Registers::R0), 0x8000);
    assert_eq!(vm.register(Registers::RCond), 2);
    run(&mut vm);
    assert_eq!(vm.register(Registers::R0), b'y' as u16);
}

#[test]
fn faults() {
    let mut vm = machine(0x3000, &[0x8000]);
    assert_eq!(run(&mut vm).0, Progress::Fault(Fault::Unimplemented));
    let mut vm = machine(0x3000, &[0xD000]);
    assert_eq!(run(&mut vm).0, Progress::Fault(Fault::Unimplemented));
    let mut vm = machine(0x3000, &[0xF0FF]);
    assert_eq!(run(&mut vm).0, Progress::Fault(Fault::UnknownTrap(0xFF)));
    // STI R0, #-1
    let mut vm = machine(0x3000, &[0xB1FF]);
    assert_eq!(run(&mut vm).0, Progress::Fault(Fault::Overflow));
    assert_eq!(vm.register(Registers::RProgramCounter), 0x3000);
}

#[test]
fn initialized_machine_runs_from_zero() {
    let mut vm = VM::new();
    let (p, _) = run(&mut vm);
    assert_eq!(p, Progress::Done(State::INITIALIZED));
    assert_eq!(vm.register(Registers::RProgramCounter), 1);
}

#[test]
fn fetching_from_device_status_registers() {
    // LD R2, +1 ; JMP R2 ; .FILL KB_STATUS
    let mut vm = machine(0x3000, &[0x2401, 0xC080, 0xFE00]);
    run(&mut vm);
    run(&mut vm);
    assert_eq!(vm.register(Registers::RProgramCounter), 0xFE00);
    let (p, _) = run(&mut vm);
    assert_eq!(p, Progress::AwaitKey(KeyRequest::Poll));
    vm.supply_key(None);
    let (p, _) = run(&mut vm);
    assert_eq!(p, Progress::Done(State::RUNNING));
    assert_eq!(vm.register(Registers::RProgramCounter), 0xFE01);
    // at the display status register the fetched word is an RTI
    let mut vm = machine(0x3000, &[0x2401, 0xC080, 0xFE04]);
    run(&mut vm);
    run(&mut vm);
    assert_eq!(run(&mut vm).0, Progress::Fault(Fault::Unimplemented));
}
