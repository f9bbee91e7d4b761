//! Memory, registers and the instruction set of the LC-3 machine.

use byteorder::{BigEndian, ByteOrder};
use vstd::prelude::*;
use vstd::std_specs::convert::TryFromSpecImpl;

verus! {

/// Number of addressable words.
pub const MEM_SIZE: u32 = 0x10000;

/// Keyboard status register: its top bit tells whether a key was typed.
pub const KB_STATUS: u16 = 0xFE00;

/// Keyboard data register: the last key typed.
pub const KB_DATA: u16 = 0xFE02;

/// Display status register: its top bit tells whether the display is ready.
pub const DISP_STATUS: u16 = 0xFE04;

/// Display data register: a character stored in its low byte is displayed.
pub const DISP_DATA: u16 = 0xFE06;

/// Machine control register: bit 15 is the clock enable bit.
pub const MACHINE_CTRL: u16 = 0xFFFE;

/// The top bit of a word, used by the device status registers.
pub const STATUS_READY: u16 = 0x8000;

/// The clock enable bit of the machine control register: clearing it stops
/// instruction processing.
pub const CLOCK_ENABLE: u16 = 0x8000;

/// What reading `address` does to memory and what it returns. `keyboard` is
/// what polling the keyboard gave (`None`: no key waiting, `Some(c)`: key `c`);
/// it is consulted only when the keyboard status register is read.
pub open spec fn read_effect(mem: Seq<u16>, address: u16, keyboard: Option<u8>) -> (Seq<u16>, u16) {
    if address == KB_STATUS {
        match keyboard {
            Some(c) => (mem.update(KB_STATUS as int, STATUS_READY).update(KB_DATA as int, c as u16), STATUS_READY),
            None => (mem.update(KB_STATUS as int, 0), 0),
        }
    } else if address == DISP_STATUS {
        (mem.update(DISP_STATUS as int, STATUS_READY), STATUS_READY)
    } else {
        (mem, mem[address as int])
    }
}

/// What a store does besides storing the word.
#[derive(Debug, Clone, Copy, PartialEq, Eq, Structural)]
pub enum DeviceEffect {
    /// Nothing.
    Nothing,
    /// The character is displayed (a store to the display data register).
    Display(u8),
    /// Instruction processing stops (a store that clears the clock enable
    /// bit of the machine control register).
    Stop,
}

/// The device effect of storing `data` at `address`: the display data
/// register displays the character in the low byte; clearing the clock
/// enable bit of the machine control register stops the machine.
pub open spec fn write_effect(address: u16, data: u16) -> DeviceEffect {
    if address == DISP_DATA {
        DeviceEffect::Display((data & 0xFF) as u8)
    } else if address == MACHINE_CTRL && data & CLOCK_ENABLE == 0 {
        DeviceEffect::Stop
    } else {
        DeviceEffect::Nothing
    }
}

/// The device effect of storing `data` at `address`.
pub fn store_effect(address: u16, data: u16) -> (e: DeviceEffect)
    ensures
        e == write_effect(address, data),
{
    if address == DISP_DATA {
        DeviceEffect::Display((data & 0xFF) as u8)
    } else if address == MACHINE_CTRL && data & CLOCK_ENABLE == 0 {
        DeviceEffect::Stop
    } else {
        DeviceEffect::Nothing
    }
}

/// The big-endian word made of two bytes.
pub open spec fn be_word_spec(hi: u8, lo: u8) -> u16 {
    (hi as int * 256 + lo as int) as u16
}

/// Number of words of an object image after its origin word.
pub open spec fn image_words(image: Seq<u8>) -> int {
    (image.len() - 2) / 2
}

/// The origin word of an object image.
pub open spec fn image_origin(image: Seq<u8>) -> u16 {
    be_word_spec(image[0], image[1])
}

/// The `i`-th word of an object image after its origin.
pub open spec fn image_word(image: Seq<u8>, i: int) -> u16 {
    be_word_spec(image[2 + 2 * i], image[3 + 2 * i])
}

/// An image can be loaded: it holds an origin and its words end below the
/// last address (the load address is a plain `u16` counter that is bumped
/// after each word).
pub open spec fn image_fits_spec(image: Seq<u8>) -> bool {
    &&& image.len() >= 2
    &&& (image_words(image) == 0 || image_origin(image) + image_words(image) <= 0xFFFF)
}

/// Memory after loading `image` over `mem`.
pub open spec fn load_effect(mem: Seq<u16>, image: Seq<u8>) -> Seq<u16> {
    let origin = image_origin(image) as int;
    Seq::new(
        mem.len(),
        |a: int|
            if origin <= a < origin + image_words(image) {
                image_word(image, a - origin)
            } else {
                mem[a]
            },
    )
}

/// `byteorder`'s `BigEndian::read_u16`, given the two bytes it reads: the
/// first byte is the high byte, the second the low byte.
#[verifier::external_body]
fn be_word(hi: u8, lo: u8) -> (w: u16)
    ensures
        w == be_word_spec(hi, lo),
{
    BigEndian::read_u16(&[hi, lo])
}

/// Reading an address that is not a device status register gives back the
/// last word stored there and leaves memory as it is; a store leaves every
/// other address as it was.
pub proof fn lemma_read_after_write(
    mem: Seq<u16>,
    address: u16,
    other: u16,
    data: u16,
    keyboard: Option<u8>,
)
    requires
        mem.len() == MEM_SIZE,
        address != KB_STATUS,
        address != DISP_STATUS,
    ensures
        read_effect(mem.update(address as int, data), address, keyboard) == (
            mem.update(address as int, data),
            data,
        ),
        other != address ==> mem.update(address as int, data)[other as int] == mem[other as int],
{
}

/// After a poll that found key `c`, the keyboard status register reads as
/// ready and the keyboard data register holds `c`; after a poll that found
/// none, the status register reads as not ready.
pub proof fn lemma_keyboard_poll(mem: Seq<u16>, keyboard: Option<u8>, next: Option<u8>)
    requires
        mem.len() == MEM_SIZE,
    ensures
        match keyboard {
            Some(c) => {
                &&& read_effect(mem, KB_STATUS, keyboard).1 == STATUS_READY
                &&& read_effect(read_effect(mem, KB_STATUS, keyboard).0, KB_DATA, next).1 == c as u16
            },
            None => read_effect(mem, KB_STATUS, keyboard).1 == 0,
        },
{
}

/// Loading an image puts its `i`-th word at its origin plus `i` and leaves
/// every other address as it was.
pub proof fn lemma_load_places_words(mem: Seq<u16>, image: Seq<u8>, a: int)
    requires
        mem.len() == MEM_SIZE,
        image_fits_spec(image),
        0 <= a < MEM_SIZE,
    ensures
        load_effect(mem, image).len() == MEM_SIZE,
        image_origin(image) <= a < image_origin(image) + image_words(image) ==> load_effect(mem, image)[a]
            == image_word(image, a - image_origin(image)),
        !(image_origin(image) <= a < image_origin(image) + image_words(image)) ==> load_effect(
            mem,
            image,
        )[a] == mem[a],
{
}

/// The machine's memory: one word for each 16-bit address.
pub struct Memory {
    data: Vec<u16>,
}

impl View for Memory {
    type V = Seq<u16>;

    closed spec fn view(&self) -> Seq<u16> {
        self.data@
    }
}

impl Memory {
    /// Every address holds a word.
    pub open spec fn wf(&self) -> bool {
        self@.len() == MEM_SIZE
    }

    /// All-zero memory.
    pub fn new() -> (m: Self)
        ensures
            m.wf(),
            m@ == Seq::new(MEM_SIZE as nat, |i: int| 0u16),
    {
        let m = Memory { data: vec![0u16; MEM_SIZE as usize] };
        assert(m@ =~= Seq::new(MEM_SIZE as nat, |i: int| 0u16));
        m
    }

    /// Whether `image` can be loaded by `load_image`.
    pub fn image_fits(image: &[u8]) -> (b: bool)
        ensures
            b == image_fits_spec(image@),
    {
        if image.len() < 2 {
            return false;
        }
        let origin = be_word(image[0], image[1]);
        let words = (image.len() - 2) / 2;
        words == 0 || (origin as usize) + words <= 0xFFFF
    }

    /// Stores the words of an object image, starting at the address given by
    /// its first word; returns that address. A trailing odd byte is ignored.
    pub fn load_image(&mut self, image: &[u8]) -> (origin: u16)
        requires
            old(self).wf(),
            image_fits_spec(image@),
        ensures
            final(self).wf(),
            origin == image_origin(image@),
            final(self)@ == load_effect(old(self)@, image@),
    {
        let origin = be_word(image[0], image[1]);
        let mut address: u16 = origin;
        let mut i: usize = 2;
        let ghost n = image_words(image@);
        while i + 1 < image.len()
            invariant
                self.wf(),
                2 <= i <= image.len(),
                i % 2 == 0,
                origin == image_origin(image@),
                n == image_words(image@),
                image_fits_spec(image@),
                address as int == origin + (i - 2) / 2,
                forall|a: int|
                    0 <= a < MEM_SIZE ==> #[trigger] self@[a] == if origin <= a < address {
                        image_word(image@, a - origin)
                    } else {
                        old(self)@[a]
                    },
            decreases image.len() - i,
        {
            let word = be_word(image[i], image[i + 1]);
            let ghost k = (i - 2) / 2;
            assert(i == 2 + 2 * k);
            assert(k < n);
            self.data.set(address as usize, word);
            address = address + 1;
            i = i + 2;
        }
        assert((i - 2) / 2 == n);
        assert(self@ =~= load_effect(old(self)@, image@));
        origin
    }

    /// The word at `address`, with no effect on devices.
    pub(crate) fn peek(&self, address: u16) -> (w: u16)
        requires
            self.wf(),
        ensures
            w == self@[address as int],
    {
        self.data[address as usize]
    }

    /// Reads `address`. Reading the keyboard status register records what
    /// polling the keyboard gave (`keyboard`): its top bit is set and the key
    /// is stored in the keyboard data register when a key was waiting, else
    /// it is cleared. Reading the display status register marks the display
    /// ready.
    pub fn read(&mut self, address: u16, keyboard: Option<u8>) -> (w: u16)
        requires
            old(self).wf(),
        ensures
            final(self).wf(),
            (final(self)@, w) == read_effect(old(self)@, address, keyboard),
    {
        if address == KB_STATUS {
            match keyboard {
                Some(c) => {
                    self.data.set(KB_STATUS as usize, STATUS_READY);
                    self.data.set(KB_DATA as usize, c as u16);
                },
                None => {
                    self.data.set(KB_STATUS as usize, 0);
                },
            }
        } else if address == DISP_STATUS {
            self.data.set(DISP_STATUS as usize, STATUS_READY);
        }
        self.data[address as usize]
    }

    /// Stores `data` at `address` and returns what the store does to the
    /// devices: a character to display for the display data register, a stop
    /// when the clock enable bit of the machine control register is cleared,
    /// nothing otherwise. Memory has no console and no clock; the caller
    /// carries the effect out (the machine's step does, see
    /// `semantics::store`).
    pub fn write(&mut self, address: u16, data: u16) -> (effect: DeviceEffect)
        requires
            old(self).wf(),
        ensures
            final(self).wf(),
            final(self)@ == old(self)@.update(address as int, data),
            effect == write_effect(address, data),
    {
        self.data.set(address as usize, data);
        store_effect(address, data)
    }
}

/// The machine's registers: eight general-purpose ones, the program counter
/// and the condition flags. `RCount` is the number of registers.
#[derive(Debug, Clone, Copy, PartialEq, Eq, Structural)]
pub enum Registers {
    R0,
    R1,
    R2,
    R3,
    R4,
    R5,
    R6,
    R7,
    RProgramCounter,
    RCond,
    RCount,
}

/// Slot of the program counter in the register file.
pub const PC: u8 = 8;

/// Slot of the condition flags in the register file.
pub const COND: u8 = 9;

impl Registers {
    /// The register's number.
    pub open spec fn number(self) -> u8 {
        match self {
            Registers::R0 => 0,
            Registers::R1 => 1,
            Registers::R2 => 2,
            Registers::R3 => 3,
            Registers::R4 => 4,
            Registers::R5 => 5,
            Registers::R6 => 6,
            Registers::R7 => 7,
            Registers::RProgramCounter => 8,
            Registers::RCond => 9,
            Registers::RCount => 10,
        }
    }

    /// The register's number.
    pub fn index(self) -> (i: u8)
        ensures
            i == self.number(),
    {
        match self {
            Registers::R0 => 0,
            Registers::R1 => 1,
            Registers::R2 => 2,
            Registers::R3 => 3,
            Registers::R4 => 4,
            Registers::R5 => 5,
            Registers::R6 => 6,
            Registers::R7 => 7,
            Registers::RProgramCounter => 8,
            Registers::RCond => 9,
            Registers::RCount => 10,
        }
    }
}

impl TryFrom<u16> for Registers {
    type Error = ();

    fn try_from(v: u16) -> (r: Result<Self, ()>) {
        match v {
            0 => Ok(Registers::R0),
            1 => Ok(Registers::R1),
            2 => Ok(Registers::R2),
            3 => Ok(Registers::R3),
            4 => Ok(Registers::R4),
            5 => Ok(Registers::R5),
            6 => Ok(Registers::R6),
            7 => Ok(Registers::R7),
            8 => Ok(Registers::RProgramCounter),
            9 => Ok(Registers::RCond),
            10 => Ok(Registers::RCount),
            _ => Err(()),
        }
    }
}

impl TryFromSpecImpl<u16> for Registers {
    open spec fn obeys_try_from_spec() -> bool {
        true
    }

    open spec fn try_from_spec(v: u16) -> Result<Self, ()> {
        match v {
            0 => Ok(Registers::R0),
            1 => Ok(Registers::R1),
            2 => Ok(Registers::R2),
            3 => Ok(Registers::R3),
            4 => Ok(Registers::R4),
            5 => Ok(Registers::R5),
            6 => Ok(Registers::R6),
            7 => Ok(Registers::R7),
            8 => Ok(Registers::RProgramCounter),
            9 => Ok(Registers::RCond),
            10 => Ok(Registers::RCount),
            _ => Err(()),
        }
    }
}

/// Operation codes, numbered by the top four bits of an instruction.
#[derive(Debug, Clone, Copy, PartialEq, Eq, Structural)]
pub enum OpCodes {
    /// branch
    OpBR,
    /// add
    OpADD,
    /// load
    OpLD,
    /// store
    OpST,
    /// jump to subroutine
    OpJSR,
    /// bitwise and
    OpAND,
    /// load base + offset
    OpLDR,
    /// store base + offset
    OpSTR,
    /// return from interrupt (not implemented)
    OpRTI,
    /// bitwise not
    OpNOT,
    /// load indirect
    OpLDI,
    /// store indirect
    OpSTI,
    /// jump
    OpJMP,
    /// reserved (not implemented)
    OpRES,
    /// load effective address
    OpLEA,
    /// trap
    OpTRAP,
}

impl TryFrom<u8> for OpCodes {
    type Error = ();

    fn try_from(v: u8) -> (r: Result<Self, ()>) {
        match v {
            0 => Ok(OpCodes::OpBR),
            1 => Ok(OpCodes::OpADD),
            2 => Ok(OpCodes::OpLD),
            3 => Ok(OpCodes::OpST),
            4 => Ok(OpCodes::OpJSR),
            5 => Ok(OpCodes::OpAND),
            6 => Ok(OpCodes::OpLDR),
            7 => Ok(OpCodes::OpSTR),
            8 => Ok(OpCodes::OpRTI),
            9 => Ok(OpCodes::OpNOT),
            10 => Ok(OpCodes::OpLDI),
            11 => Ok(OpCodes::OpSTI),
            12 => Ok(OpCodes::OpJMP),
            13 => Ok(OpCodes::OpRES),
            14 => Ok(OpCodes::OpLEA),
            15 => Ok(OpCodes::OpTRAP),
            _ => Err(()),
        }
    }
}

impl TryFromSpecImpl<u8> for OpCodes {
    open spec fn obeys_try_from_spec() -> bool {
        true
    }

    open spec fn try_from_spec(v: u8) -> Result<Self, ()> {
        match v {
            0 => Ok(OpCodes::OpBR),
            1 => Ok(OpCodes::OpADD),
            2 => Ok(OpCodes::OpLD),
            3 => Ok(OpCodes::OpST),
            4 => Ok(OpCodes::OpJSR),
            5 => Ok(OpCodes::OpAND),
            6 => Ok(OpCodes::OpLDR),
            7 => Ok(OpCodes::OpSTR),
            8 => Ok(OpCodes::OpRTI),
            9 => Ok(OpCodes::OpNOT),
            10 => Ok(OpCodes::OpLDI),
            11 => Ok(OpCodes::OpSTI),
            12 => Ok(OpCodes::OpJMP),
            13 => Ok(OpCodes::OpRES),
            14 => Ok(OpCodes::OpLEA),
            15 => Ok(OpCodes::OpTRAP),
            _ => Err(()),
        }
    }
}

/// Sign of the last value written to a register by an instruction that sets
/// the condition flags.
#[derive(Debug, Clone, Copy, PartialEq, Eq, Structural)]
pub enum CondFlags {
    Pos,
    Zero,
    Neg,
}

impl TryFrom<u16> for CondFlags {
    type Error = ();

    fn try_from(v: u16) -> (r: Result<Self, ()>) {
        match v {
            0 => Ok(CondFlags::Pos),
            1 => Ok(CondFlags::Zero),
            2 => Ok(CondFlags::Neg),
            _ => Err(()),
        }
    }
}

impl TryFromSpecImpl<u16> for CondFlags {
    open spec fn obeys_try_from_spec() -> bool {
        true
    }

    open spec fn try_from_spec(v: u16) -> Result<Self, ()> {
        match v {
            0 => Ok(CondFlags::Pos),
            1 => Ok(CondFlags::Zero),
            2 => Ok(CondFlags::Neg),
            _ => Err(()),
        }
    }
}

/// Service routines reached by the trap instruction, numbered 0x20 to 0x25.
#[derive(Debug, Clone, Copy, PartialEq, Eq, Structural)]
pub enum TrapCall {
    /// read a key into R0
    GETC,
    /// write the character in R0
    OUT,
    /// write a string, one character per word
    PUTS,
    /// prompt for a key, echo it and put it into R0
    IN,
    /// write a string, two characters per word
    PUTSP,
    /// stop the machine
    HALT,
}

impl TryFrom<u16> for TrapCall {
    type Error = ();

    fn try_from(v: u16) -> (r: Result<Self, ()>) {
        match v {
            0x20 => Ok(TrapCall::GETC),
            0x21 => Ok(TrapCall::OUT),
            0x22 => Ok(TrapCall::PUTS),
            0x23 => Ok(TrapCall::IN),
            0x24 => Ok(TrapCall::PUTSP),
            0x25 => Ok(TrapCall::HALT),
            _ => Err(()),
        }
    }
}

impl TryFromSpecImpl<u16> for TrapCall {
    open spec fn obeys_try_from_spec() -> bool {
        true
    }

    open spec fn try_from_spec(v: u16) -> Result<Self, ()> {
        match v {
            0x20 => Ok(TrapCall::GETC),
            0x21 => Ok(TrapCall::OUT),
            0x22 => Ok(TrapCall::PUTS),
            0x23 => Ok(TrapCall::IN),
            0x24 => Ok(TrapCall::PUTSP),
            0x25 => Ok(TrapCall::HALT),
            _ => Err(()),
        }
    }
}

} // verus!
