use vstd::prelude::*;

verus! {

/// Address of the first memory-mapped I/O port; ports `123..=126` map to
/// the four I/O slots `0..=3`.
pub const FIRST_PORT: u8 = 123;

/// Address through which loads pop and stores push the data stack.
pub const STACK_PORT: u8 = 127;

/// Abstract state of the pipelined CPU, as a tuple of mathematical sequences.
#[verifier::ext_equal]
pub struct MachineState {
    pub code: Seq<[u8; 4]>,
    pub pc: u8,
    pub registers: Seq<u8>,
    pub ram: Seq<u8>,
    pub data_stack: Seq<u8>,
    pub call_stack: Seq<u8>,
    /// Pending jump targets; slot 4 is consumed by the program counter.
    pub jmp_info: Seq<Option<u8>>,
    /// Register snapshot visible to stores (two ticks old).
    pub reg4io: Seq<u8>,
    /// Register snapshot taken at the start of the current tick.
    pub reg4io_buffer: Seq<u8>,
    /// Address pipeline: `pointer[0]` is the latest value of register 9.
    pub pointer: Seq<u8>,
    pub fl_cout: bool,
    pub fl_odd: bool,
    pub fl_zero: bool,
    pub is_running: bool,
    pub io_in: Seq<u8>,
    pub io_out: Seq<u8>,
}

impl MachineState {
    /// The fixed sizes of the register file, memory and pipelines.
    pub open spec fn well_formed(self) -> bool {
        &&& self.registers.len() == 11
        &&& self.ram.len() == 64
        &&& self.jmp_info.len() == 5
        &&& self.reg4io.len() == 11
        &&& self.reg4io_buffer.len() == 11
        &&& self.pointer.len() == 4
        &&& self.io_in.len() == 4
        &&& self.io_out.len() == 4
    }

    /// The instruction under the program counter.
    pub open spec fn current(self) -> [u8; 4] {
        self.code[self.pc as int]
    }
}

/// The I/O slot addressed by a port number, if it is one of the four ports.
pub open spec fn spec_port_slot(port: u8) -> Option<int> {
    if FIRST_PORT <= port <= 126 {
        Some(port - FIRST_PORT)
    } else {
        None
    }
}

/// The 16-bit result computed by an arithmetic/logic opcode (`0..=8`).
/// Opcode 4 adds, as the hardware does.
pub open spec fn alu_result(opc: u8, a: u16, b: u16, carry_in: bool) -> u16 {
    if opc == 0 {
        (a + b) as u16
    } else if opc == 1 {
        (a + (256 - b)) as u16
    } else if opc == 2 {
        (a + b + 1) as u16
    } else if opc == 3 {
        (a + b + if carry_in { 1int } else { 0int }) as u16
    } else if opc == 4 {
        (a + b) as u16
    } else if opc == 5 {
        a & b
    } else if opc == 6 {
        a ^ b
    } else if opc == 7 {
        a ^ !b
    } else {
        (a | b) >> 1u16
    }
}

/// Flags after a result `num`: carry out, low bit, and zero low byte.
pub open spec fn with_flags(s: MachineState, num: u16) -> MachineState {
    MachineState { fl_cout: num > 255, fl_odd: num % 2 == 1, fl_zero: num % 256 == 0, ..s }
}

/// The 8-bit address formed by the two nibble fields of a jump or call.
pub open spec fn jump_target(instr: [u8; 4]) -> u8 {
    (instr@[2] + (instr@[3] << 4u8)) as u8
}

/// The target formed by the nibble fields fits in a byte.
pub open spec fn jump_target_fits(instr: [u8; 4]) -> bool {
    instr@[2] + (instr@[3] << 4u8) <= 255
}

/// The value an `ldi` instruction computes from its two nibble fields.
pub open spec fn ldi_value(instr: [u8; 4]) -> u16 {
    (instr@[2] + ((instr@[3] as u16) << 4u16)) as u16
}

/// Whether a conditional jump with condition field `n` is taken.
pub open spec fn branch_taken(s: MachineState, n: u8) -> bool {
    let flag = if n % 8 == 0 {
        s.fl_odd
    } else if n % 8 == 1 {
        s.fl_zero
    } else if n % 8 == 3 {
        s.fl_cout
    } else {
        false
    };
    flag != (n >= 8)
}

/// Stage one of a tick: the jump, register and address pipelines advance.
pub open spec fn latch(s: MachineState) -> MachineState {
    let regs = s.registers.update(0, 0u8);
    MachineState {
        jmp_info: seq![None, s.jmp_info[0], s.jmp_info[1], s.jmp_info[2], s.jmp_info[3]],
        registers: regs,
        reg4io: s.reg4io_buffer,
        reg4io_buffer: regs,
        pointer: seq![s.registers[9], s.pointer[0], s.pointer[1], s.pointer[2]],
        ..s
    }
}

/// The value a load reads from RAM or an input port at address `p`.
pub open spec fn load_base(s: MachineState, p: u8) -> u16 {
    if p <= 63 {
        s.ram[p as int] as u16
    } else if FIRST_PORT <= p <= 126 {
        s.io_in[p - FIRST_PORT] as u16
    } else {
        0
    }
}

/// Pops a stack, giving 0 and leaving it unchanged when it is empty.
pub open spec fn pop_or_zero(stack: Seq<u8>) -> (u8, Seq<u8>) {
    if stack.len() > 0 {
        (stack.last(), stack.drop_last())
    } else {
        (0, stack)
    }
}

/// Stage two of a tick: the effect of instruction `instr` on a latched state,
/// and the I/O port written, if any.
pub open spec fn execute(s: MachineState, instr: [u8; 4]) -> (MachineState, Option<u8>) {
    let op = instr@[0];
    let d = instr@[1] as int;
    if op <= 8 {
        let a = s.registers[instr@[2] as int] as u16;
        let b = s.registers[instr@[3] as int] as u16;
        let c = alu_result(op, a, b, s.fl_cout);
        let s2 = with_flags(MachineState { registers: s.registers.update(10, 0u8), ..s }, c);
        (MachineState { registers: s2.registers.update(d, c as u8), ..s2 }, None)
    } else if op == 9 {
        let c = ldi_value(instr);
        let s2 = with_flags(s, c);
        (MachineState { registers: s2.registers.update(d, c as u8), ..s2 }, None)
    } else if op == 10 {
        let p = s.pointer[2];
        let (popped, stack) = if s.pointer[1] == STACK_PORT {
            pop_or_zero(s.data_stack)
        } else {
            (0u8, s.data_stack)
        };
        let c = load_base(s, p) | (popped as u16);
        let s2 = with_flags(MachineState { data_stack: stack, ..s }, c);
        (MachineState { registers: s2.registers.update(d, c as u8), ..s2 }, None)
    } else if op == 11 {
        let v = s.reg4io[instr@[2] as int];
        let p = s.pointer[1];
        if p == STACK_PORT {
            (MachineState { data_stack: s.data_stack.push(v), ..s }, None)
        } else if p <= 63 {
            (MachineState { ram: s.ram.update(p as int, v), ..s }, None)
        } else if FIRST_PORT <= p <= 126 {
            (MachineState { io_out: s.io_out.update(p - FIRST_PORT, v), ..s }, Some(p))
        } else {
            (s, None)
        }
    } else if op == 12 {
        let s2 = if branch_taken(s, instr@[1]) {
            MachineState { jmp_info: s.jmp_info.update(0, Some(jump_target(instr))), ..s }
        } else {
            s
        };
        (with_flags(s2, 0), None)
    } else if op == 13 {
        let s2 = MachineState {
            jmp_info: s.jmp_info.update(2, Some(jump_target(instr))),
            call_stack: if instr@[1] < 8 {
                s.call_stack.push((s.pc + 3) as u8)
            } else {
                s.call_stack
            },
            ..s
        };
        (with_flags(s2, 0), None)
    } else if op == 14 {
        let (target, stack) = pop_or_zero(s.call_stack);
        let s2 = MachineState {
            jmp_info: s.jmp_info.update(2, Some(target)),
            call_stack: stack,
            ..s
        };
        (with_flags(s2, 0), None)
    } else if op == 15 {
        (with_flags(MachineState { is_running: false, ..s }, 0), None)
    } else {
        (s, None)
    }
}

/// The program counter after a tick: a jump leaving the pipeline, or the
/// next instruction.
pub open spec fn next_pc(s: MachineState, e: MachineState) -> u8 {
    match e.jmp_info[4] {
        Some(v) => v,
        None => (s.pc + 1) as u8,
    }
}

/// One clock tick of the machine: the next state, and the I/O port that the
/// tick wrote (whose listener is then due).
pub open spec fn step(s: MachineState) -> (MachineState, Option<u8>) {
    let l = latch(s);
    let (e, port) = execute(l, s.current());
    (MachineState { pc: next_pc(s, e), ..e }, port)
}

/// The operand fields of `instr` are in range, and its arithmetic does not
/// overflow, when it runs on the latched state `l` at address `pc`.
pub open spec fn instr_ok(l: MachineState, instr: [u8; 4], pc: u8) -> bool {
    let op = instr@[0];
    if op <= 8 {
        instr@[1] < 11 && instr@[2] < 11 && instr@[3] < 11
    } else if op == 9 || op == 10 {
        instr@[1] < 11
    } else if op == 11 {
        instr@[2] < 11
    } else if op == 12 {
        branch_taken(l, instr@[1]) ==> jump_target_fits(instr)
    } else if op == 13 {
        jump_target_fits(instr) && (instr@[1] < 8 ==> pc <= 252)
    } else {
        true
    }
}

/// The inputs on which a tick completes: the program counter addresses an
/// instruction, its fields are in range, and the program counter does not
/// run past 255.
pub open spec fn can_step(s: MachineState) -> bool {
    &&& s.pc < s.code.len()
    &&& instr_ok(latch(s), s.current(), s.pc)
    &&& (s.jmp_info[3] is None ==> s.pc < 255)
}

/// The initial machine: no code, everything zero, not running.
pub open spec fn initial_state() -> MachineState {
    MachineState {
        code: Seq::empty(),
        pc: 0,
        registers: Seq::new(11, |i: int| 0u8),
        ram: Seq::new(64, |i: int| 0u8),
        data_stack: Seq::empty(),
        call_stack: Seq::empty(),
        jmp_info: Seq::new(5, |i: int| None),
        reg4io: Seq::new(11, |i: int| 0u8),
        reg4io_buffer: Seq::new(11, |i: int| 0u8),
        pointer: Seq::new(4, |i: int| 0u8),
        fl_cout: false,
        fl_odd: false,
        fl_zero: false,
        is_running: false,
        io_in: Seq::new(4, |i: int| 0u8),
        io_out: Seq::new(4, |i: int| 0u8),
    }
}

/// The I/O slot addressed by a port number: `Some(port - 123)` for the ports
/// `123..=126`, `None` otherwise.
pub fn port_slot(port: u8) -> (slot: Option<usize>)
    ensures
        match spec_port_slot(port) {
            Some(i) => slot == Some(i as usize),
            None => slot is None,
        },
{
    if FIRST_PORT <= port && port <= 126 {
        Some((port - FIRST_PORT) as usize)
    } else {
        None
    }
}

/// An element-wise copy of a program.
pub fn copy_program(code: &Vec<[u8; 4]>) -> (copy: Vec<[u8; 4]>)
    ensures
        copy@ == code@,
{
    let mut copy: Vec<[u8; 4]> = Vec::new();
    for i in 0..code.len()
        invariant
            copy@ == code@.take(i as int),
    {
        copy.push(code[i]);
        assert(copy@ =~= code@.take(i + 1));
    }
    assert(code@.take(code.len() as int) =~= code@);
    copy
}

/// The pipelined 8-bit CPU.
pub struct BrummCpuEmulator {
    code: Vec<[u8; 4]>,
    pc: u8,
    registers: [u8; 11],
    ram: [u8; 64],
    data_stack: Vec<u8>,
    call_stack: Vec<u8>,
    jmp_info: [Option<u8>; 5],
    reg4io: [u8; 11],
    reg4io_buffer: [u8; 11],
    pointer: [u8; 4],
    fl_cout: bool,
    fl_odd: bool,
    fl_zero: bool,
    is_running: bool,
    io_in: [u8; 4],
    io_out: [u8; 4],
}

impl View for BrummCpuEmulator {
    type V = MachineState;

    closed spec fn view(&self) -> MachineState {
        MachineState {
            code: self.code@,
            pc: self.pc,
            registers: self.registers@,
            ram: self.ram@,
            data_stack: self.data_stack@,
            call_stack: self.call_stack@,
            jmp_info: self.jmp_info@,
            reg4io: self.reg4io@,
            reg4io_buffer: self.reg4io_buffer@,
            pointer: self.pointer@,
            fl_cout: self.fl_cout,
            fl_odd: self.fl_odd,
            fl_zero: self.fl_zero,
            is_running: self.is_running,
            io_in: self.io_in@,
            io_out: self.io_out@,
        }
    }
}

impl BrummCpuEmulator {
    /// Every emulator has the register file, memory and pipelines of the
    /// machine's fixed sizes.
    pub proof fn lemma_well_formed(&self)
        ensures
            self@.well_formed(),
    {
    }

    /// A fresh machine with no code.
    pub fn new() -> (emu: Self)
        ensures
            emu@ == initial_state(),
    {
        let emu = BrummCpuEmulator {
            code: Vec::new(),
            pc: 0,
            registers: [0; 11],
            ram: [0; 64],
            data_stack: Vec::new(),
            call_stack: Vec::new(),
            jmp_info: [None; 5],
            reg4io: [0; 11],
            reg4io_buffer: [0; 11],
            pointer: [0; 4],
            fl_cout: false,
            fl_odd: false,
            fl_zero: false,
            is_running: false,
            io_in: [0; 4],
            io_out: [0; 4],
        };
        assert(emu@ =~= initial_state());
        emu
    }
}


impl BrummCpuEmulator {
    /// Replaces the program.
    pub fn set_code(&mut self, code: &Vec<[u8; 4]>)
        ensures
            final(self)@ == (MachineState { code: code@, ..old(self)@ }),
    {
        self.code = copy_program(code);
    }

    /// Whether `tick` may be called: see `can_step`.
    pub fn can_tick(&self) -> (ok: bool)
        ensures
            ok == can_step(self@),
    {
        if self.pc as usize >= self.code.len() {
            return false;
        }
        if self.jmp_info[3].is_none() && self.pc == 255 {
            return false;
        }
        let instr = self.code[self.pc as usize];
        let op = instr[0];
        if op <= 8 {
            instr[1] < 11 && instr[2] < 11 && instr[3] < 11
        } else if op == 9 || op == 10 {
            instr[1] < 11
        } else if op == 11 {
            instr[2] < 11
        } else if op == 12 {
            let taken = self.condition_holds(instr[1]);
            !taken || (instr[2] as u16 + (instr[3] << 4) as u16) <= 255
        } else if op == 13 {
            (instr[2] as u16 + (instr[3] << 4) as u16) <= 255 && (instr[1] >= 8 || self.pc <= 252)
        } else {
            true
        }
    }

    /// Whether a conditional jump with condition field `n` is taken in the
    /// current flags.
    fn condition_holds(&self, n: u8) -> (taken: bool)
        ensures
            taken == branch_taken(self@, n),
    {
        let flag: bool = match n % 8 {
            0 => self.fl_odd,
            1 => self.fl_zero,
            3 => self.fl_cout,
            _ => false,
        };
        flag ^ (n >= 8)
    }

    /// Advances the jump, register and address pipelines.
    fn advance_pipeline(&mut self)
        ensures
            final(self)@ == latch(old(self)@),
    {
        self.jmp_info[4] = self.jmp_info[3];
        self.jmp_info[3] = self.jmp_info[2];
        self.jmp_info[2] = self.jmp_info[1];
        self.jmp_info[1] = self.jmp_info[0];
        self.jmp_info[0] = None;

        self.registers[0] = 0;
        self.reg4io = self.reg4io_buffer;
        self.reg4io_buffer = self.registers;

        self.pointer[3] = self.pointer[2];
        self.pointer[2] = self.pointer[1];
        self.pointer[1] = self.pointer[0];
        self.pointer[0] = self.registers[9];
        assert(self@ =~= latch(old(self)@));
    }

    /// Reads the two source registers of `instr` and clears register 10.
    fn get_registers(&mut self, instr: [u8; 4]) -> (ab: (u16, u16))
        requires
            instr@[2] < 11,
            instr@[3] < 11,
        ensures
            ab.0 == old(self)@.registers[instr@[2] as int] as u16,
            ab.1 == old(self)@.registers[instr@[3] as int] as u16,
            final(self)@ == (MachineState {
                registers: old(self)@.registers.update(10, 0u8),
                ..old(self)@
            }),
    {
        let a = self.registers[instr[2] as usize] as u16;
        let b = self.registers[instr[3] as usize] as u16;
        self.registers[10] = 0;
        assert(self@ =~= (MachineState { registers: old(self)@.registers.update(10, 0u8), ..old(self)@ }));
        (a, b)
    }

    /// Sets the carry, odd and zero flags from a result.
    fn update_flags(&mut self, num: u16)
        ensures
            final(self)@ == with_flags(old(self)@, num),
    {
        self.fl_cout = num > 255;
        self.fl_odd = num % 2 == 1;
        self.fl_zero = (num % 256) == 0;
    }

    /// Writes the low byte of a result to register `d`.
    fn write_register(&mut self, d: u8, c: u16)
        requires
            d < 11,
        ensures
            final(self)@ == (MachineState {
                registers: old(self)@.registers.update(d as int, c as u8),
                ..old(self)@
            }),
    {
        self.registers[d as usize] = c as u8;
        assert(self@ =~= (MachineState { registers: old(self)@.registers.update(d as int, c as u8), ..old(self)@ }));
    }
}


impl BrummCpuEmulator {
    /// One clock tick: the pipelines advance, the instruction under the
    /// program counter executes, and the program counter moves on. Returns the
    /// I/O port that the tick wrote to, whose listener the caller then runs.
    pub fn tick(&mut self) -> (port_written: Option<u8>)
        requires
            can_step(old(self)@),
        ensures
            (final(self)@, port_written) == step(old(self)@),
    {
        // (1) - Update Pipeline
        self.advance_pipeline();
        // (2) - Execute
        let instr = self.code[self.pc as usize];
        let port_written = self.execute_instruction(instr);
        let ghost executed = self@;
        // (3) - Program counter
        self.pc = match self.jmp_info[4] {
            Some(v) => v,
            None => self.pc + 1,
        };
        assert(self@ =~= (MachineState { pc: next_pc(old(self)@, executed), ..executed }));
        port_written
    }

    /// Executes one instruction on a latched state.
    fn execute_instruction(&mut self, instr: [u8; 4]) -> (port_written: Option<u8>)
        requires
            instr_ok(old(self)@, instr, old(self)@.pc),
        ensures
            (final(self)@, port_written) == execute(old(self)@, instr),
            final(self)@.pc == old(self)@.pc,
            final(self)@.jmp_info[4] == old(self)@.jmp_info[4],
    {
        let op = instr[0];
        if op <= 8 {
            let (a, b) = self.get_registers(instr);
            let c: u16 = match op {
                0 => a + b,
                1 => a + (256 - b),
                2 => a + b + 1,
                3 => a + b + self.fl_cout as u16,
                4 => a + b,
                5 => a & b,
                6 => a ^ b,
                7 => a ^ !b,
                _ => (a | b) >> 1,
            };
            self.update_flags(c);
            self.write_register(instr[1], c);
            None
        } else if op == 9 {
            // ldi
            let hi = instr[3];
            assert(((hi as u16) << 4u16) <= 4080) by (bit_vector);
            let c = instr[2] as u16 + ((instr[3] as u16) << 4);
            self.update_flags(c);
            self.write_register(instr[1], c);
            None
        } else if op == 10 {
            // load
            let p = self.pointer[2];
            let p_stack = self.pointer[1];
            let base: u16 = if p <= 63 {
                self.ram[p as usize] as u16
            } else if FIRST_PORT <= p && p <= 126 {
                self.io_in[(p - FIRST_PORT) as usize] as u16
            } else {
                0
            };
            let popped: u16 = if p_stack == STACK_PORT {
                match self.data_stack.pop() {
                    Some(v) => v as u16,
                    None => 0,
                }
            } else {
                0
            };
            let c = base | popped;
            self.update_flags(c);
            self.write_register(instr[1], c);
            None
        } else if op == 11 {
            // store
            let val = self.reg4io[instr[2] as usize];
            let p = self.pointer[1];
            if p == STACK_PORT {
                self.data_stack.push(val);
                None
            } else if p <= 63 {
                self.ram[p as usize] = val;
                None
            } else if FIRST_PORT <= p && p <= 126 {
                self.io_out[(p - FIRST_PORT) as usize] = val;
                Some(p)
            } else {
                None
            }
        } else if op == 12 {
            // conditional jump
            if self.condition_holds(instr[1]) {
                let num = instr[2] + (instr[3] << 4);
                self.jmp_info[0] = Some(num);
            }
            self.update_flags(0);
            None
        } else if op == 13 {
            // call
            let num = instr[2] + (instr[3] << 4);
            self.jmp_info[2] = Some(num);
            if instr[1] < 8 {
                self.call_stack.push(self.pc + 3);
            }
            self.update_flags(0);
            None
        } else if op == 14 {
            // return
            let num = match self.call_stack.pop() {
                Some(v) => v,
                None => 0,
            };
            self.jmp_info[2] = Some(num);
            self.update_flags(0);
            None
        } else if op == 15 {
            // halt
            self.is_running = false;
            self.update_flags(0);
            None
        } else {
            None
        }
    }
}


impl BrummCpuEmulator {
    /// A copy of the register file.
    pub fn get_regfile(&self) -> (regs: [u8; 11])
        ensures
            regs@ == self@.registers,
    {
        self.registers
    }

    /// A copy of the RAM.
    pub fn get_ramfile(&self) -> (ram: [u8; 64])
        ensures
            ram@ == self@.ram,
    {
        self.ram
    }

    /// Sets the value that loads read from an input port; a port number
    /// outside `123..=126` changes nothing.
    pub fn set_input(&mut self, port: u8, value: u8)
        ensures
            final(self)@ == match spec_port_slot(port) {
                Some(i) => MachineState { io_in: old(self)@.io_in.update(i, value), ..old(self)@ },
                None => old(self)@,
            },
    {
        match port_slot(port) {
            Some(i) => {
                self.io_in[i] = value;
                assert(self@ =~= (MachineState { io_in: old(self)@.io_in.update(i as int, value), ..old(self)@ }));
            },
            None => {},
        }
    }

    /// The value last stored to an output port; 0 for a port number outside
    /// `123..=126`.
    pub fn get_output(&self, port: u8) -> (value: u8)
        ensures
            value == match spec_port_slot(port) {
                Some(i) => self@.io_out[i],
                None => 0,
            },
    {
        match port_slot(port) {
            Some(i) => self.io_out[i],
            None => 0,
        }
    }

    /// Marks the machine as running, as a run does before its first tick.
    pub fn start(&mut self)
        ensures
            final(self)@ == (MachineState { is_running: true, ..old(self)@ }),
    {
        self.is_running = true;
    }

    /// Whether the machine is running: set by `start`, cleared by `halt`.
    pub fn is_running(&self) -> (running: bool)
        ensures
            running == self@.is_running,
    {
        self.is_running
    }
}


/// A tick keeps the sizes of the register file, memory and pipelines, and
/// never changes the program.
pub proof fn lemma_step_well_formed(s: MachineState)
    requires
        s.well_formed(),
        can_step(s),
    ensures
        step(s).0.well_formed(),
        step(s).0.code == s.code,
{
}

/// A store to an output port reports that port, and the port then reads
/// back the stored value (the source register as of the start of the
/// previous tick); a tick reports a port only for such a store.
pub proof fn lemma_port_store_reads_back(s: MachineState)
    requires
        s.well_formed(),
        can_step(s),
    ensures
        step(s).1 is Some <==> (s.current()@[0] == 11 && spec_port_slot(s.pointer[0]) is Some),
        step(s).1 matches Some(p) ==> p == s.pointer[0] && step(s).0.io_out[p - FIRST_PORT]
            == s.reg4io_buffer[s.current()@[2] as int],
{
}

/// The content of register 0 never influences a tick: the register is
/// cleared before anything reads it.
pub proof fn lemma_register_zero_ignored(s: MachineState, v: u8)
    requires
        s.well_formed(),
    ensures
        step(MachineState { registers: s.registers.update(0, v), ..s }) == step(s),
{
    let t = MachineState { registers: s.registers.update(0, v), ..s };
    assert(latch(t) =~= latch(s));
}

/// Only `halt` stops the machine, and a tick never starts it.
pub proof fn lemma_only_halt_stops(s: MachineState)
    requires
        s.well_formed(),
        can_step(s),
    ensures
        step(s).0.is_running == (s.is_running && s.current()@[0] != 15),
{
}

/// A tick changes RAM only by a store whose address, latched one tick
/// earlier from register 9, lies in `0..=63`; the value stored is the source
/// register as it was at the start of the previous tick.
pub proof fn lemma_ram_written_only_by_store(s: MachineState)
    requires
        s.well_formed(),
        can_step(s),
    ensures
        step(s).0.ram == if s.current()@[0] == 11 && s.pointer[0] <= 63 {
            s.ram.update(s.pointer[0] as int, s.reg4io_buffer[s.current()@[2] as int])
        } else {
            s.ram
        },
{
}

/// The data stack is last-in first-out: a load that pops, following a store
/// that pushed (with the stack untouched in between), reads back the pushed
/// value when its own address selects neither RAM nor an input port, and
/// leaves the stack as it was before the push.
pub proof fn lemma_stack_push_then_pop(s: MachineState, t: MachineState)
    requires
        s.well_formed(),
        t.well_formed(),
        can_step(s),
        can_step(t),
        s.current()@[0] == 11,
        s.pointer[0] == STACK_PORT,
        t.data_stack == step(s).0.data_stack,
        t.current()@[0] == 10,
        t.pointer[0] == STACK_PORT,
        load_base(latch(t), t.pointer[1]) == 0,
    ensures
        step(t).0.registers[t.current()@[1] as int] == s.reg4io_buffer[s.current()@[2] as int],
        step(t).0.data_stack == s.data_stack,
{
    let v = s.reg4io_buffer[s.current()@[2] as int];
    assert(step(s).0.data_stack == s.data_stack.push(v));
    assert(t.data_stack.drop_last() =~= s.data_stack);
    let c = load_base(latch(t), t.pointer[1]) | (v as u16);
    assert((0u16 | (v as u16)) == v as u16) by (bit_vector);
    assert(c == v as u16);
    assert((v as u16) as u8 == v);
}

/// A call or a return redirects the program counter at the end of the second
/// following tick, whatever those ticks execute.
pub proof fn lemma_call_return_delay(s0: MachineState)
    requires
        s0.well_formed(),
        can_step(s0),
        s0.current()@[0] == 13 || s0.current()@[0] == 14,
        can_step(step(s0).0),
        can_step(step(step(s0).0).0),
    ensures
        step(step(step(s0).0).0).0.pc == step(s0).0.jmp_info[2].unwrap(),
        step(s0).0.jmp_info[2] is Some,
{
    let s1 = step(s0).0;
    lemma_step_well_formed(s0);
    let s2 = step(s1).0;
    lemma_step_well_formed(s1);
    assert(s2.jmp_info[3] == s1.jmp_info[2]);
}

/// A call pushes its return address, the address three past the call, and
/// a return whose call stack is the one that call left jumps back there and
/// restores the stack.
pub proof fn lemma_return_after_call(s: MachineState, t: MachineState)
    requires
        s.well_formed(),
        t.well_formed(),
        can_step(s),
        can_step(t),
        s.current()@[0] == 13,
        s.current()@[1] < 8,
        t.current()@[0] == 14,
        t.call_stack == step(s).0.call_stack,
    ensures
        step(t).0.jmp_info[2] == Some((s.pc + 3) as u8),
        step(t).0.call_stack == s.call_stack,
{
    assert(t.call_stack.drop_last() =~= s.call_stack);
}

/// A taken conditional jump redirects the program counter at the end of the
/// fourth following tick, unless the second following tick executes a call
/// or a return, which replaces the pending target.
pub proof fn lemma_branch_delay(s0: MachineState)
    requires
        s0.well_formed(),
        can_step(s0),
        s0.current()@[0] == 12,
        branch_taken(latch(s0), s0.current()@[1]),
        can_step(step(s0).0),
        can_step(step(step(s0).0).0),
        can_step(step(step(step(s0).0).0).0),
        can_step(step(step(step(step(s0).0).0).0).0),
        step(step(s0).0).0.current()@[0] != 13,
        step(step(s0).0).0.current()@[0] != 14,
    ensures
        step(step(step(step(step(s0).0).0).0).0).0.pc == jump_target(s0.current()),
{
    let s1 = step(s0).0;
    lemma_step_well_formed(s0);
    assert(s1.jmp_info[0] == Some(jump_target(s0.current())));
    let s2 = step(s1).0;
    lemma_step_well_formed(s1);
    assert(s2.jmp_info[1] == s1.jmp_info[0]);
    let s3 = step(s2).0;
    lemma_step_well_formed(s2);
    assert(s3.jmp_info[2] == s2.jmp_info[1]);
    let s4 = step(s3).0;
    lemma_step_well_formed(s3);
    assert(s4.jmp_info[3] == s3.jmp_info[2]);
}


/// The value an arithmetic/logic instruction reads from register `r`:
/// register 0 always reads as zero.
pub open spec fn operand(s: MachineState, r: u8) -> u8 {
    if r == 0 {
        0
    } else {
        s.registers[r as int]
    }
}

/// Low bytes of 16-bit arithmetic on bytes.
pub proof fn lemma_byte_arith(a: u8, b: u8, cin: u16)
    requires
        cin <= 1,
    ensures
        ((a as u16 + b as u16) as u16) as u8 as int == (a + b) % 256,
        ((a as u16 + (256 - b as u16)) as u16) as u8 as int == (a - b + 256) % 256,
        ((a as u16 + b as u16 + 1) as u16) as u8 as int == (a + b + 1) % 256,
        ((a as u16 + b as u16 + cin) as u16) as u8 as int == (a + b + cin) % 256,
        ((a as u16) & (b as u16)) as u8 == a & b,
        ((a as u16) ^ (b as u16)) as u8 == a ^ b,
        ((a as u16) ^ !(b as u16)) as u8 == !(a ^ b),
        (((a as u16) | (b as u16)) >> 1u16) as u8 == (a | b) >> 1u8,
        ((a as u16) & (b as u16)) <= 255,
        ((a as u16) ^ (b as u16)) <= 255,
        ((a as u16) ^ !(b as u16)) > 255,
        (((a as u16) | (b as u16)) >> 1u16) <= 255,
{
    assert(((a as u16 + b as u16) as u16) as u8 as int == (a + b) % 256) by (bit_vector);
    assert(((a as u16 + (256 - b as u16)) as u16) as u8 as int == (a - b + 256) % 256) by (bit_vector);
    assert(((a as u16 + b as u16 + 1) as u16) as u8 as int == (a + b + 1) % 256) by (bit_vector);
    assert(((a as u16 + b as u16 + cin) as u16) as u8 as int == (a + b + cin) % 256) by (bit_vector)
        requires
            cin <= 1,
    ;
    assert(((a as u16) & (b as u16)) as u8 == a & b && ((a as u16) & (b as u16)) <= 255) by (bit_vector);
    assert(((a as u16) ^ (b as u16)) as u8 == a ^ b && ((a as u16) ^ (b as u16)) <= 255) by (bit_vector);
    assert(((a as u16) ^ !(b as u16)) as u8 == !(a ^ b) && ((a as u16) ^ !(b as u16)) > 255) by (bit_vector);
    assert((((a as u16) | (b as u16)) >> 1u16) as u8 == (a | b) >> 1u8 && (((a as u16) | (b as u16))
        >> 1u16) <= 255) by (bit_vector);
}

/// A 16-bit result's flags agree with its low byte: zero exactly when the
/// byte is zero, odd exactly when the byte is odd.
proof fn lemma_low_byte_flags(c: u16)
    ensures
        (c % 256 == 0) == (c as u8 == 0),
        (c % 2 == 1) == ((c as u8) % 2 == 1),
{
    assert((c % 256 == 0) == (c as u8 == 0) && (c % 2 == 1) == ((c as u8) % 2 == 1)) by (bit_vector);
}

/// What the arithmetic/logic instructions `[op, d, x, y]` (`op <= 8`)
/// compute from the bytes `a`, `b` read from registers `x`, `y` (register 0
/// reading as zero): opcodes 0 and 4 add, 1 subtracts (`a + (256 - b)`:
/// carry exactly when `a >= b`), 2 adds one more, 3 adds the carry in, 5 is
/// bitwise AND, 6 XOR, 7 XNOR (with the carry set), 8 the OR shifted right.
/// Register `d` gets the low byte; the zero and odd flags describe that
/// byte.
pub proof fn lemma_alu_semantics(s: MachineState)
    requires
        s.well_formed(),
        can_step(s),
        s.current()@[0] <= 8,
    ensures
        ({
            let w = s.current();
            let op = w@[0];
            let a = operand(s, w@[2]);
            let b = operand(s, w@[3]);
            let t = step(s).0;
            let r = t.registers[w@[1] as int];
            let cin: int = if s.fl_cout { 1 } else { 0 };
            &&& (op == 0 || op == 4) ==> r == (a + b) % 256 && t.fl_cout == (a + b > 255)
            &&& op == 1 ==> r == (a - b + 256) % 256 && t.fl_cout == (a >= b)
            &&& op == 2 ==> r == (a + b + 1) % 256 && t.fl_cout == (a + b + 1 > 255)
            &&& op == 3 ==> r == (a + b + cin) % 256 && t.fl_cout == (a + b + cin > 255)
            &&& op == 5 ==> r == a & b && !t.fl_cout
            &&& op == 6 ==> r == a ^ b && !t.fl_cout
            &&& op == 7 ==> r == !(a ^ b) && t.fl_cout
            &&& op == 8 ==> r == (a | b) >> 1u8 && !t.fl_cout
            &&& t.fl_zero == (r == 0)
            &&& t.fl_odd == (r % 2 == 1)
        }),
{
    let w = s.current();
    let a = operand(s, w@[2]);
    let b = operand(s, w@[3]);
    let l = latch(s);
    assert(l.registers[w@[2] as int] == a);
    assert(l.registers[w@[3] as int] == b);
    let c = alu_result(w@[0], a as u16, b as u16, s.fl_cout);
    lemma_byte_arith(a, b, if s.fl_cout { 1u16 } else { 0u16 });
    lemma_low_byte_flags(c);
    assert(step(s).0.registers[w@[1] as int] == c as u8);
}

/// `ldi d` loads the byte formed by its two fields: the low field plus
/// sixteen times the high field, modulo 256.
pub proof fn lemma_ldi_semantics(s: MachineState)
    requires
        s.well_formed(),
        can_step(s),
        s.current()@[0] == 9,
    ensures
        step(s).0.registers[s.current()@[1] as int] == (s.current()@[2] + 16 * s.current()@[3]) % 256,
{
    let w = s.current();
    let lo = w@[2];
    let hi = w@[3];
    assert(((lo + ((hi as u16) << 4u16)) as u16) as u8 as int == (lo + 16 * hi) % 256) by (bit_vector);
}

/// Conditional jumps `[12, n, ..]`: condition `n % 8` is 0 for the odd flag,
/// 1 for the zero flag, 3 for the carry flag, and never holds otherwise;
/// `n >= 8` negates it. A taken jump queues its target (the two nibble
/// fields); every conditional jump clears the carry and odd flags and sets
/// the zero flag, and leaves the call stack alone.
pub proof fn lemma_branch_conditions(s: MachineState)
    requires
        s.well_formed(),
        can_step(s),
        s.current()@[0] == 12,
    ensures
        ({
            let n = s.current()@[1];
            let t = step(s).0;
            let taken = t.jmp_info[0] is Some;
            &&& n % 8 == 0 ==> taken == (s.fl_odd != (n >= 8))
            &&& n % 8 == 1 ==> taken == (s.fl_zero != (n >= 8))
            &&& n % 8 == 3 ==> taken == (s.fl_cout != (n >= 8))
            &&& (n % 8 == 2 || n % 8 >= 4) ==> taken == (n >= 8)
            &&& taken ==> t.jmp_info[0] == Some(jump_target(s.current()))
            &&& !t.fl_cout && !t.fl_odd && t.fl_zero
            &&& t.call_stack == s.call_stack
        }),
{
    assert((0u16 % 256 == 0) && (0u16 % 2 == 0));
}

/// The call stack: a call `[13, x, ..]` with `x < 8` pushes exactly one
/// entry, its own address plus 3; a `goto` (`x >= 8`) leaves the stack
/// alone; both queue their target; a return pops one entry (0 from an empty
/// stack) and queues it; no other instruction touches the stack.
pub proof fn lemma_call_stack_effects(s: MachineState)
    requires
        s.well_formed(),
        can_step(s),
    ensures
        ({
            let w = s.current();
            let t = step(s).0;
            &&& (w@[0] == 13 && w@[1] < 8) ==> t.call_stack.len() == s.call_stack.len() + 1
                && t.call_stack.drop_last() == s.call_stack && t.call_stack.last() as int == s.pc
                + 3
            &&& (w@[0] == 13 && w@[1] >= 8) ==> t.call_stack == s.call_stack
            &&& w@[0] == 13 ==> t.jmp_info[2] == Some(jump_target(w))
            &&& (w@[0] == 14 && s.call_stack.len() > 0) ==> t.call_stack == s.call_stack.drop_last()
                && t.jmp_info[2] == Some(s.call_stack.last())
            &&& (w@[0] == 14 && s.call_stack.len() == 0) ==> t.call_stack == s.call_stack
                && t.jmp_info[2] == Some(0u8)
            &&& (w@[0] != 13 && w@[0] != 14) ==> t.call_stack == s.call_stack
        }),
{
    let w = s.current();
    if w@[0] == 13 && w@[1] < 8 {
        assert(step(s).0.call_stack == s.call_stack.push((s.pc + 3) as u8));
        assert(s.call_stack.push((s.pc + 3) as u8).drop_last() =~= s.call_stack);
    }
}

/// Loads `[10, d, ..]` read the address latched two ticks earlier from
/// register 9: RAM for `0..=63`, input port `p - 123` for `123..=126`, zero
/// otherwise; when the address latched one tick earlier is 127 they also
/// pop the data stack (0 from an empty stack) and OR the popped byte in.
pub proof fn lemma_load_sources(s: MachineState)
    requires
        s.well_formed(),
        can_step(s),
        s.current()@[0] == 10,
    ensures
        ({
            let p = s.pointer[1];
            let r = step(s).0.registers[s.current()@[1] as int];
            let t = step(s).0;
            let base: u8 = if p <= 63 {
                s.ram[p as int]
            } else if 123 <= p <= 126 {
                s.io_in[p - 123]
            } else {
                0
            };
            &&& s.pointer[0] != STACK_PORT ==> r == base && t.data_stack == s.data_stack
            &&& (s.pointer[0] == STACK_PORT && s.data_stack.len() > 0) ==> r == (base
                | s.data_stack.last()) && t.data_stack == s.data_stack.drop_last()
            &&& (s.pointer[0] == STACK_PORT && s.data_stack.len() == 0) ==> r == base
                && t.data_stack == s.data_stack
            &&& t.ram == s.ram && t.io_in == s.io_in
            &&& t.fl_zero == (r == 0)
        }),
{
    let p = s.pointer[1];
    let base: u8 = if p <= 63 {
        s.ram[p as int]
    } else if 123 <= p <= 126 {
        s.io_in[p - 123]
    } else {
        0
    };
    let l = latch(s);
    assert(load_base(l, p) == base as u16);
    let popped: u8 = if s.pointer[0] == STACK_PORT && s.data_stack.len() > 0 {
        s.data_stack.last()
    } else {
        0
    };
    let c = load_base(l, p) | (popped as u16);
    assert(c == (base as u16) | (popped as u16));
    assert(((base as u16) | (popped as u16)) as u8 == base | popped && (base | 0u8) == base
        && (((base as u16) | (popped as u16)) % 256 == 0) == ((base | popped) == 0)) by (bit_vector);
}

/// Stores `[11, _, x, _]` write the value register `x` had at the start of
/// the previous tick to the address latched one tick earlier: push it for
/// 127, RAM for `0..=63`, output port `p - 123` for `123..=126`; other
/// addresses change nothing. Stores leave the flags alone.
pub proof fn lemma_store_targets(s: MachineState)
    requires
        s.well_formed(),
        can_step(s),
        s.current()@[0] == 11,
    ensures
        ({
            let p = s.pointer[0];
            let v = s.reg4io_buffer[s.current()@[2] as int];
            let t = step(s).0;
            &&& p == STACK_PORT ==> t.data_stack == s.data_stack.push(v) && t.ram == s.ram
                && t.io_out == s.io_out
            &&& p <= 63 ==> t.ram == s.ram.update(p as int, v) && t.data_stack == s.data_stack
                && t.io_out == s.io_out
            &&& 123 <= p <= 126 ==> t.io_out == s.io_out.update(p - 123, v) && t.ram == s.ram
                && t.data_stack == s.data_stack
            &&& (64 <= p < 123 || p > 127) ==> t.ram == s.ram && t.data_stack == s.data_stack
                && t.io_out == s.io_out
            &&& t.fl_cout == s.fl_cout && t.fl_odd == s.fl_odd && t.fl_zero == s.fl_zero
            &&& t.registers == latch(s).registers
        }),
{
}


/// Stores see registers one tick late: a store executed in the tick after
/// state `s0` writes, at the address register 9 held in `s0`, the value the
/// source register held in `s0` (0 for register 0).
pub proof fn lemma_store_uses_previous_registers(s0: MachineState)
    requires
        s0.well_formed(),
        can_step(s0),
        can_step(step(s0).0),
        step(s0).0.current()@[0] == 11,
        s0.registers[9] <= 63,
    ensures
        step(step(s0).0).0.ram[s0.registers[9] as int] == operand(s0, step(s0).0.current()@[2]),
{
    lemma_step_well_formed(s0);
    let s1 = step(s0).0;
    assert(s1.pointer[0] == s0.registers[9]);
    assert(s1.reg4io_buffer == s0.registers.update(0, 0u8));
}

/// Loads see the address register two ticks late: a load executed two
/// ticks after state `s0` reads RAM at the address register 9 held in `s0`
/// (when that address is in `0..=63` and the stack is not addressed).
pub proof fn lemma_load_uses_address_two_ticks_back(s0: MachineState)
    requires
        s0.well_formed(),
        can_step(s0),
        can_step(step(s0).0),
        can_step(step(step(s0).0).0),
        step(step(s0).0).0.current()@[0] == 10,
        s0.registers[9] <= 63,
        step(s0).0.registers[9] != STACK_PORT,
    ensures
        ({
            let s2 = step(step(s0).0).0;
            step(s2).0.registers[s2.current()@[1] as int] == s2.ram[s0.registers[9] as int]
        }),
{
    lemma_step_well_formed(s0);
    let s1 = step(s0).0;
    lemma_step_well_formed(s1);
    let s2 = step(s1).0;
    assert(s1.pointer[0] == s0.registers[9]);
    assert(s2.pointer[1] == s1.pointer[0]);
    assert(s2.pointer[0] == s1.registers[9]);
    lemma_load_sources(s2);
}

} // verus!
