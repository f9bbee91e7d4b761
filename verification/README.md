# lc3vm

A virtual machine for the LC-3 educational computer, with its instruction
semantics written as specifications and its implementation proved against
them.

- `src/hardware.rs`: memory (device registers, object-image loading),
  register, operation, flag and trap numbering.
- `src/registers.rs`: the register file, an `enum_map::EnumMap`.
- `src/utils.rs`: sign extension and the condition flags.
- `src/semantics.rs`: what one instruction does, as a function of the machine
  and of the keyboard answers given so far, with its laws.
- `src/vm.rs`: the machine; `step` carries out one instruction, asking for
  keyboard answers and reporting console output.
- `src/keyboard.rs`, `src/config.rs`: key decoding and command-line arguments.
- `app/main.rs`: the terminal program around the library.
