use vstd::prelude::*;

use crate::emulator::{alu_result, lemma_byte_arith, pop_or_zero, STACK_PORT};

verus! {

/// Abstract state of the minimal CPU core: no I/O ports, no program counter
/// movement, an address pipeline fed from register 8.
#[verifier::ext_equal]
pub struct CoreState {
    pub code: Seq<[u8; 4]>,
    pub pc: u8,
    pub registers: Seq<u8>,
    pub ram: Seq<u8>,
    pub data_stack: Seq<u8>,
    pub call_stack: Seq<u8>,
    pub jmp_info: Seq<Option<u8>>,
    pub reg4io: Seq<u8>,
    pub pointer: Seq<u8>,
    pub fl_cout: bool,
    pub fl_odd: bool,
    pub fl_zero: bool,
}

impl CoreState {
    /// The fixed sizes of the register file, memory and pipelines.
    pub open spec fn well_formed(self) -> bool {
        &&& self.registers.len() == 11
        &&& self.ram.len() == 64
        &&& self.jmp_info.len() == 4
        &&& self.reg4io.len() == 11
        &&& self.pointer.len() == 3
    }
}

/// Flags after a result `num`: carry out, low bit, and a zero result.
pub open spec fn core_with_flags(s: CoreState, num: u16) -> CoreState {
    CoreState { fl_cout: num > 255, fl_odd: num % 2 == 1, fl_zero: num == 0, ..s }
}

/// The value the core's `ldi` computes: the sum of the two nibble fields,
/// shifted left by four.
pub open spec fn core_ldi_value(instr: [u8; 4]) -> u16 {
    ((instr@[2] + instr@[3]) as u16) << 4u16
}

/// Stage one of a core tick: the pipelines advance and register 0 is cleared.
pub open spec fn core_latch(s: CoreState) -> CoreState {
    let regs = s.registers.update(0, 0u8);
    CoreState {
        jmp_info: seq![None, s.jmp_info[0], s.jmp_info[1], s.jmp_info[2]],
        registers: regs,
        reg4io: regs,
        pointer: seq![s.registers[8], s.pointer[0], s.pointer[1]],
        ..s
    }
}

/// Stage two of a core tick: the effect of `instr` on a latched state.
/// Opcodes 12 and up have no effect on this core.
pub open spec fn core_execute(s: CoreState, instr: [u8; 4]) -> CoreState {
    let op = instr@[0];
    let d = instr@[1] as int;
    if op <= 8 {
        let a = s.registers[instr@[2] as int] as u16;
        let b = s.registers[instr@[3] as int] as u16;
        let c = alu_result(op, a, b, s.fl_cout);
        let s2 = core_with_flags(CoreState { registers: s.registers.update(10, 0u8), ..s }, c);
        CoreState { registers: s2.registers.update(d, c as u8), ..s2 }
    } else if op == 9 {
        let c = core_ldi_value(instr);
        let s2 = core_with_flags(s, c);
        CoreState { registers: s2.registers.update(d, c as u8), ..s2 }
    } else if op == 10 {
        let p = s.pointer[2];
        let (c, stack): (u8, Seq<u8>) = if p == STACK_PORT {
            pop_or_zero(s.data_stack)
        } else if p <= 63 {
            (s.ram[p as int], s.data_stack)
        } else {
            (0u8, s.data_stack)
        };
        let s2 = core_with_flags(CoreState { data_stack: stack, ..s }, c as u16);
        CoreState { registers: s2.registers.update(d, c), ..s2 }
    } else if op == 11 {
        let v = s.reg4io[instr@[2] as int];
        let p = s.pointer[1];
        if p == STACK_PORT {
            CoreState { data_stack: s.data_stack.push(v), ..s }
        } else if p <= 63 {
            CoreState { ram: s.ram.update(p as int, v), ..s }
        } else {
            s
        }
    } else {
        s
    }
}

/// One tick of the core. The program counter stays where it is.
pub open spec fn core_step(s: CoreState) -> CoreState {
    core_execute(core_latch(s), s.code[s.pc as int])
}

/// The inputs on which a core tick completes: the program counter addresses
/// an instruction whose register fields are in range.
pub open spec fn core_can_step(s: CoreState) -> bool {
    let instr = s.code[s.pc as int];
    let op = instr@[0];
    &&& s.pc < s.code.len()
    &&& (op <= 8 ==> instr@[1] < 11 && instr@[2] < 11 && instr@[3] < 11)
    &&& (op == 9 || op == 10 ==> instr@[1] < 11)
    &&& (op == 11 ==> instr@[2] < 11)
}

/// The minimal CPU core.
#[allow(non_camel_case_types, non_snake_case)]
pub struct brumm_cpu_emulator {
    code: Vec<[u8; 4]>,
    PC: u8,
    registers: [u8; 11],
    ram: [u8; 64],
    data_stack: Vec<u8>,
    call_stack: Vec<u8>,
    jmp_info: [Option<u8>; 4],
    reg4io: [u8; 11],
    pointer: [u8; 3],
    fl_cout: bool,
    fl_odd: bool,
    fl_zero: bool,
}

impl View for brumm_cpu_emulator {
    type V = CoreState;

    closed spec fn view(&self) -> CoreState {
        CoreState {
            code: self.code@,
            pc: self.PC,
            registers: self.registers@,
            ram: self.ram@,
            data_stack: self.data_stack@,
            call_stack: self.call_stack@,
            jmp_info: self.jmp_info@,
            reg4io: self.reg4io@,
            pointer: self.pointer@,
            fl_cout: self.fl_cout,
            fl_odd: self.fl_odd,
            fl_zero: self.fl_zero,
        }
    }
}

impl brumm_cpu_emulator {
    /// Every core has the register file, memory and pipelines of the fixed
    /// sizes.
    pub proof fn lemma_well_formed(&self)
        ensures
            self@.well_formed(),
    {
    }

    /// A core running `code`, with everything else zero.
    pub fn new(code: Vec<[u8; 4]>) -> (core: Self)
        ensures
            core@ == (CoreState {
                code: code@,
                pc: 0,
                registers: Seq::new(11, |i: int| 0u8),
                ram: Seq::new(64, |i: int| 0u8),
                data_stack: Seq::empty(),
                call_stack: Seq::empty(),
                jmp_info: Seq::new(4, |i: int| None),
                reg4io: Seq::new(11, |i: int| 0u8),
                pointer: Seq::new(3, |i: int| 0u8),
                fl_cout: false,
                fl_odd: false,
                fl_zero: false,
            }),
    {
        let core = brumm_cpu_emulator {
            code: code,
            PC: 0,
            registers: [0; 11],
            ram: [0; 64],
            data_stack: Vec::new(),
            call_stack: Vec::new(),
            jmp_info: [None; 4],
            reg4io: [0; 11],
            pointer: [0; 3],
            fl_cout: false,
            fl_odd: false,
            fl_zero: false,
        };
        assert(core@.registers =~= Seq::new(11, |i: int| 0u8));
        assert(core@.ram =~= Seq::new(64, |i: int| 0u8));
        assert(core@.jmp_info =~= Seq::new(4, |i: int| None));
        assert(core@.reg4io =~= Seq::new(11, |i: int| 0u8));
        assert(core@.pointer =~= Seq::new(3, |i: int| 0u8));
        assert(core@.data_stack =~= Seq::empty());
        assert(core@.call_stack =~= Seq::empty());
        core
    }

    /// One clock tick: the pipelines advance and the instruction under the
    /// program counter executes.
    pub fn tick(&mut self)
        requires
            core_can_step(old(self)@),
        ensures
            final(self)@ == core_step(old(self)@),
    {
        // (1) - Update Pipeline
        self.jmp_info[3] = self.jmp_info[2];
        self.jmp_info[2] = self.jmp_info[1];
        self.jmp_info[1] = self.jmp_info[0];
        self.jmp_info[0] = None;

        self.registers[0] = 0;
        self.reg4io = self.registers;

        self.pointer[2] = self.pointer[1];
        self.pointer[1] = self.pointer[0];
        self.pointer[0] = self.registers[8];
        assert(self@ =~= core_latch(old(self)@));
        let ghost latched = self@;
        // (2) - Execute
        let instr = self.code[self.PC as usize];
        let op = instr[0];
        if op <= 8 {
            let (a, b) = self.get_registers(instr);
            let c: u16 = match op {
                0 => a + b,
                1 => a + (256 - b),
                2 => a + b + 1,
                3 => a + b + self.fl_cout as u16,
                4 => a + b,
                5 => a & b,
                6 => a ^ b,
                7 => a ^ !b,
                _ => (a | b) >> 1,
            };
            self.update_flags(c);
            self.registers[instr[1] as usize] = c as u8;
        } else if op == 9 {
            // ldi
            let lo = instr[2];
            let hi = instr[3];
            assert(((lo as u16 + hi as u16) as u16) << 4u16 <= 8160) by (bit_vector)
                requires lo <= 255 && hi <= 255;
            let c = (instr[2] as u16 + instr[3] as u16) << 4;
            self.update_flags(c);
            self.registers[instr[1] as usize] = c as u8;
        } else if op == 10 {
            // load
            let p = self.pointer[2];
            let c: u8 = if p == STACK_PORT {
                match self.data_stack.pop() {
                    Some(v) => v,
                    None => 0,
                }
            } else if p <= 63 {
                self.ram[p as usize]
            } else {
                0
            };
            self.update_flags(c as u16);
            self.registers[instr[1] as usize] = c;
        } else if op == 11 {
            // store
            let val = self.reg4io[instr[2] as usize];
            let p = self.pointer[1];
            if p == STACK_PORT {
                self.data_stack.push(val);
            } else if p <= 63 {
                self.ram[p as usize] = val;
            }
        }
        assert(self@ =~= core_execute(latched, instr));
    }

    /// Reads the two source registers of `instr` and clears register 10.
    fn get_registers(&mut self, instr: [u8; 4]) -> (ab: (u16, u16))
        requires
            instr@[2] < 11,
            instr@[3] < 11,
        ensures
            ab.0 == old(self)@.registers[instr@[2] as int] as u16,
            ab.1 == old(self)@.registers[instr@[3] as int] as u16,
            final(self)@ == (CoreState {
                registers: old(self)@.registers.update(10, 0u8),
                ..old(self)@
            }),
    {
        let a = self.registers[instr[2] as usize] as u16;
        let b = self.registers[instr[3] as usize] as u16;
        self.registers[10] = 0;
        assert(self@ =~= (CoreState { registers: old(self)@.registers.update(10, 0u8), ..old(self)@ }));
        (a, b)
    }

    /// Sets the carry, odd and zero flags from a result.
    fn update_flags(&mut self, num: u16)
        ensures
            final(self)@ == core_with_flags(old(self)@, num),
    {
        self.fl_cout = num > 255;
        self.fl_odd = num % 2 == 1;
        self.fl_zero = num == 0;
    }
}

/// The core never moves its program counter: every tick executes the same
/// instruction again.
pub proof fn lemma_core_pc_fixed(s: CoreState)
    requires
        s.well_formed(),
        core_can_step(s),
    ensures
        core_step(s).pc == s.pc,
        core_step(s).code == s.code,
        core_step(s).well_formed(),
{
}


/// The value the core reads from register `r`: register 0 reads as zero.
pub open spec fn core_operand(s: CoreState, r: u8) -> u8 {
    if r == 0 {
        0
    } else {
        s.registers[r as int]
    }
}

/// What the core's arithmetic/logic instructions `[op, d, x, y]` write to
/// register `d`, from the bytes `a`, `b` of registers `x`, `y`: opcodes 0
/// and 4 add, 1 subtracts, 2 adds one more, 3 adds the carry in, 5 is bitwise
/// AND, 6 XOR, 7 XNOR, 8 the OR shifted right, all modulo 256.
pub proof fn lemma_core_alu_semantics(s: CoreState)
    requires
        s.well_formed(),
        core_can_step(s),
        s.code[s.pc as int]@[0] <= 8,
    ensures
        ({
            let w = s.code[s.pc as int];
            let op = w@[0];
            let a = core_operand(s, w@[2]);
            let b = core_operand(s, w@[3]);
            let t = core_step(s);
            let r = t.registers[w@[1] as int];
            let cin: int = if s.fl_cout { 1 } else { 0 };
            &&& (op == 0 || op == 4) ==> r == (a + b) % 256 && t.fl_cout == (a + b > 255)
            &&& op == 1 ==> r == (a - b + 256) % 256 && t.fl_cout == (a >= b)
            &&& op == 2 ==> r == (a + b + 1) % 256
            &&& op == 3 ==> r == (a + b + cin) % 256
            &&& op == 5 ==> r == a & b && !t.fl_cout
            &&& op == 6 ==> r == a ^ b && !t.fl_cout
            &&& op == 7 ==> r == !(a ^ b) && t.fl_cout
            &&& op == 8 ==> r == (a | b) >> 1u8 && !t.fl_cout
        }),
{
    let w = s.code[s.pc as int];
    let a = core_operand(s, w@[2]);
    let b = core_operand(s, w@[3]);
    let l = core_latch(s);
    assert(l.registers[w@[2] as int] == a);
    assert(l.registers[w@[3] as int] == b);
    lemma_byte_arith(a, b, if s.fl_cout { 1u16 } else { 0u16 });
}

/// The core's loads `[10, d, ..]` read the address latched two ticks
/// earlier from register 8: the top of the data stack (popped; 0 when empty)
/// for 127, RAM for `0..=63`, zero otherwise.
pub proof fn lemma_core_load_sources(s: CoreState)
    requires
        s.well_formed(),
        core_can_step(s),
        s.code[s.pc as int]@[0] == 10,
    ensures
        ({
            let p = s.pointer[1];
            let t = core_step(s);
            let r = t.registers[s.code[s.pc as int]@[1] as int];
            &&& p <= 63 ==> r == s.ram[p as int] && t.data_stack == s.data_stack
            &&& (p == STACK_PORT && s.data_stack.len() > 0) ==> r == s.data_stack.last()
                && t.data_stack == s.data_stack.drop_last()
            &&& (p == STACK_PORT && s.data_stack.len() == 0) ==> r == 0
            &&& (63 < p && p != STACK_PORT) ==> r == 0 && t.data_stack == s.data_stack
            &&& t.ram == s.ram
        }),
{
}

/// The core's stores `[11, _, x, _]` write register `x` as it was at the
/// start of the tick to the address latched one tick earlier: push it for
/// 127, RAM for `0..=63`, nothing otherwise.
pub proof fn lemma_core_store_targets(s: CoreState)
    requires
        s.well_formed(),
        core_can_step(s),
        s.code[s.pc as int]@[0] == 11,
    ensures
        ({
            let p = s.pointer[0];
            let v = core_operand(s, s.code[s.pc as int]@[2]);
            let t = core_step(s);
            &&& p == STACK_PORT ==> t.data_stack == s.data_stack.push(v) && t.ram == s.ram
            &&& p <= 63 ==> t.ram == s.ram.update(p as int, v) && t.data_stack == s.data_stack
            &&& (63 < p && p != STACK_PORT) ==> t.ram == s.ram && t.data_stack == s.data_stack
        }),
{
}


/// The core's `ldi d` loads sixteen times the sum of its two fields, modulo
/// 256, into register `d`.
pub proof fn lemma_core_ldi_semantics(s: CoreState)
    requires
        s.well_formed(),
        core_can_step(s),
        s.code[s.pc as int]@[0] == 9,
    ensures
        core_step(s).registers[s.code[s.pc as int]@[1] as int] == (16 * (s.code[s.pc as int]@[2]
            + s.code[s.pc as int]@[3])) % 256,
{
    let w = s.code[s.pc as int];
    let lo = w@[2];
    let hi = w@[3];
    assert(((((lo + hi) as u16) << 4u16) as u8) as int == (16 * (lo + hi)) % 256) by (bit_vector);
}

} // verus!
