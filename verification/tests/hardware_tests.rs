use lc3vm::config::Config;
use lc3vm::hardware::{
    store_effect, CondFlags, DeviceEffect, Memory, OpCodes, Registers, TrapCall, DISP_STATUS, KB_DATA, KB_STATUS, MEM_SIZE,
};
use lc3vm::keyboard::{key_byte, Key};
use lc3vm::registers::RegisterFile;
use lc3vm::utils::{sign_extend, update_flags};

#[test]
fn memory_starts_zeroed() {
    let mut mem = Memory::new();
    assert_eq!(MEM_SIZE, 0x10000);
    assert_eq!(mem.read(0, None), 0);
    assert_eq!(mem.read(0x3000, None), 0);
    assert_eq!(mem.read(0xFFFF, None), 0);
}

#[test]
fn memory_read_after_write() {
    let mut mem = Memory::new();
    mem.write(0x3000, 0xBEEF);
    mem.write(0x3001, 7);
    assert_eq!(mem.read(0x3000, None), 0xBEEF);
    assert_eq!(mem.read(0x3001, None), 7);
    assert_eq!(mem.read(0x3002, None), 0);
}

#[test]
fn device_registers_store_words() {
    let mut mem = Memory::new();
    assert_eq!(mem.write(0xFE06, 0x1241), DeviceEffect::Display(b'A'));
    assert_eq!(mem.write(0xFFFE, 0x7FFF), DeviceEffect::Stop);
    assert_eq!(mem.write(0xFFFE, 0x8000), DeviceEffect::Nothing);
    assert_eq!(mem.write(0x3000, 0x41), DeviceEffect::Nothing);
    assert_eq!(mem.read(0xFE06, None), 0x1241);
    assert_eq!(mem.read(0xFFFE, None), 0x8000);
    assert_eq!(store_effect(0xFE06, 0x000A), DeviceEffect::Display(10));
}

#[test]
fn keyboard_status_with_key() {
    let mut mem = Memory::new();
    assert_eq!(mem.read(KB_STATUS, Some(b'x')), 0x8000);
    assert_eq!(mem.read(KB_DATA, None), b'x' as u16);
}

#[test]
fn keyboard_status_without_key() {
    let mut mem = Memory::new();
    mem.write(KB_STATUS, 0x8000);
    assert_eq!(mem.read(KB_STATUS, None), 0);
    assert_eq!(mem.read(KB_DATA, None), 0);
}

#[test]
fn display_status_is_ready() {
    let mut mem = Memory::new();
    assert_eq!(mem.read(DISP_STATUS, None), 0x8000);
}

#[test]
fn load_image_places_words() {
    let mut mem = Memory::new();
    let image = vec![0x30, 0x00, 0x12, 0x34, 0xAB, 0xCD, 0x99];
    assert!(Memory::image_fits(&image));
    let origin = mem.load_image(&image);
    assert_eq!(origin, 0x3000);
    assert_eq!(mem.read(0x3000, None), 0x1234);
    assert_eq!(mem.read(0x3001, None), 0xABCD);
    assert_eq!(mem.read(0x3002, None), 0);
    assert_eq!(mem.read(0x2FFF, None), 0);
}

#[test]
fn image_fits_checks() {
    assert!(!Memory::image_fits(&[]));
    assert!(!Memory::image_fits(&[0x30]));
    assert!(Memory::image_fits(&[0xFF, 0xFF]));
    assert!(Memory::image_fits(&[0xFF, 0xFE, 0, 1]));
    assert!(!Memory::image_fits(&[0xFF, 0xFF, 0, 1]));
}

#[test]
fn sign_extend_values() {
    assert_eq!(sign_extend(0b1_1111, 5), 0xFFFF);
    assert_eq!(sign_extend(0b0_1111, 5), 15);
    assert_eq!(sign_extend(0b1_0000, 5), 0xFFF0);
    assert_eq!(sign_extend(0x1FF, 9), 0xFFFF);
    assert_eq!(sign_extend(0x100, 9), 0xFF00);
    assert_eq!(sign_extend(0x0FF, 9), 0x00FF);
    assert_eq!(sign_extend(0x400, 11), 0xFC00);
    assert_eq!(sign_extend(0x20, 6), 0xFFE0);
    assert_eq!(sign_extend(0x7FFF, 16), 0x7FFF);
    assert_eq!(sign_extend(1, 1), 0xFFFF);
    assert_eq!(sign_extend(0x1F, 5) as i16, -1);
    assert_eq!(sign_extend(0x100, 9) as i16, -256);
}

#[test]
fn update_flags_by_sign() {
    let mut regs = RegisterFile::new();
    update_flags(0x8000, &mut regs);
    assert_eq!(regs.get(Registers::RCond), 2);
    update_flags(0, &mut regs);
    assert_eq!(regs.get(Registers::RCond), 1);
    update_flags(0x7FFF, &mut regs);
    assert_eq!(regs.get(Registers::RCond), 0);
    assert_eq!(regs.get(Registers::R0), 0);
}

#[test]
fn register_file_get_set() {
    let mut regs = RegisterFile::new();
    regs.set(Registers::R3, 42);
    regs.set(Registers::RProgramCounter, 0x3000);
    assert_eq!(regs.get(Registers::R3), 42);
    assert_eq!(regs.get(Registers::RProgramCounter), 0x3000);
    assert_eq!(regs.get(Registers::R4), 0);
}

#[test]
fn register_numbers() {
    assert_eq!(Registers::R0.index(), 0);
    assert_eq!(Registers::R7.index(), 7);
    assert_eq!(Registers::RProgramCounter.index(), 8);
    assert_eq!(Registers::RCond.index(), 9);
    assert_eq!(Registers::RCount.index(), 10);
    assert_eq!(Registers::try_from(3u16), Ok(Registers::R3));
    assert_eq!(Registers::try_from(11u16), Err(()));
}

#[test]
fn opcode_numbers() {
    assert_eq!(OpCodes::try_from(0u8), Ok(OpCodes::OpBR));
    assert_eq!(OpCodes::try_from(1u8), Ok(OpCodes::OpADD));
    assert_eq!(OpCodes::try_from(8u8), Ok(OpCodes::OpRTI));
    assert_eq!(OpCodes::try_from(14u8), Ok(OpCodes::OpLEA));
    assert_eq!(OpCodes::try_from(15u8), Ok(OpCodes::OpTRAP));
    assert_eq!(OpCodes::try_from(16u8), Err(()));
}

#[test]
fn trap_and_flag_numbers() {
    assert_eq!(TrapCall::try_from(0x20u16), Ok(TrapCall::GETC));
    assert_eq!(TrapCall::try_from(0x25u16), Ok(TrapCall::HALT));
    assert_eq!(TrapCall::try_from(0x26u16), Err(()));
    assert_eq!(TrapCall::try_from(0x1Fu16), Err(()));
    assert_eq!(CondFlags::try_from(2u16), Ok(CondFlags::Neg));
    assert_eq!(CondFlags::try_from(3u16), Err(()));
    assert_eq!(CondFlags::Zero.to_word(), 1);
}

#[test]
fn key_bytes() {
    assert_eq!(key_byte(true, Key::Char('a')), Some(b'a'));
    assert_eq!(key_byte(true, Key::Enter), Some(b'\n'));
    assert_eq!(key_byte(true, Key::Backspace), Some(0x7F));
    assert_eq!(key_byte(true, Key::Esc), Some(0x1B));
    assert_eq!(key_byte(true, Key::Other), None);
    assert_eq!(key_byte(false, Key::Char('a')), None);
    assert_eq!(key_byte(true, Key::Char('\u{141}')), Some(0x41));
}

#[test]
fn config_takes_second_argument() {
    let args = vec!["lc3".to_string(), "prog.obj".to_string(), "extra".to_string()];
    let config = Config::new(args).unwrap();
    assert_eq!(config.path, "prog.obj");
}

#[test]
fn config_without_path() {
    let args = vec!["lc3".to_string()];
    assert_eq!(Config::new(args).err(), Some("path to lc3 obj not specified"));
    assert!(Config::new(vec![]).is_err());
}
