use brumm_cpu::assembler::assemble;
use brumm_cpu::emulate::brumm_cpu_emulator;
use brumm_cpu::emulator::{port_slot, BrummCpuEmulator};
use brumm_cpu::ports::{display_glyph, port_rng};

fn machine(code: &Vec<[u8; 4]>) -> BrummCpuEmulator {
    let mut emu = BrummCpuEmulator::new();
    emu.set_code(code);
    emu
}

/// Runs until `halt`, returning the ports written along the way.
fn run(emu: &mut BrummCpuEmulator) -> Vec<u8> {
    let mut ports = Vec::new();
    emu.start();
    let mut steps = 0;
    while emu.is_running() {
        assert!(emu.can_tick());
        if let Some(p) = emu.tick() {
            ports.push(p);
        }
        steps += 1;
        assert!(steps < 1000);
    }
    ports
}

fn run_source(src: &str) -> BrummCpuEmulator {
    let code = assemble(src).unwrap();
    let mut emu = machine(&code);
    run(&mut emu);
    emu
}

#[test]
fn fresh_machine_is_zero() {
    let emu = BrummCpuEmulator::new();
    assert_eq!(emu.get_regfile(), [0; 11]);
    assert_eq!(emu.get_ramfile(), [0; 64]);
    assert!(!emu.is_running());
    assert!(!emu.can_tick());
    for p in 0..=255u8 {
        assert_eq!(emu.get_output(p), 0);
    }
}

#[test]
fn port_slots() {
    assert_eq!(port_slot(122), None);
    assert_eq!(port_slot(123), Some(0));
    assert_eq!(port_slot(126), Some(3));
    assert_eq!(port_slot(127), None);
}

#[test]
fn ldi_loads_the_immediate() {
    let emu = run_source("ldi a 200\nldi b 7\nldi c 0\nhalt");
    let r = emu.get_regfile();
    assert_eq!(r[1], 200);
    assert_eq!(r[2], 7);
    assert_eq!(r[3], 0);
}

#[test]
fn alu_results() {
    let emu = run_source(
        "ldi a 5\nldi b 7\nsub c a b\nor d a b\nand e a b\nxor f a b\nxnor g a b\nrshift h a b\nadd i a b\nhalt",
    );
    let r = emu.get_regfile();
    assert_eq!(r[3], 254); // 5 + (256 - 7)
    assert_eq!(r[4], 12); // `or` adds
    assert_eq!(r[5], 5);
    assert_eq!(r[6], 2);
    assert_eq!(r[7], 253); // 5 ^ !7 (16 bits), low byte
    assert_eq!(r[8], 3); // (5 | 7) >> 1
    assert_eq!(r[9], 12);
}

#[test]
fn carry_feeds_addco() {
    let emu = run_source("ldi a 200\nldi b 100\nadd c a b\naddco d 0 0\naddci e 0 0\nhalt");
    let r = emu.get_regfile();
    assert_eq!(r[3], 44);
    assert_eq!(r[4], 1);
    assert_eq!(r[5], 1);
}

#[test]
fn register_ten_is_cleared_by_alu_reads() {
    let emu = run_source("ldi tmp 9\nadd a b c\nhalt");
    assert_eq!(emu.get_regfile()[10], 0);
    let emu = run_source("ldi tmp 9\nhalt");
    assert_eq!(emu.get_regfile()[10], 9);
}

#[test]
fn law_register_zero_reads_zero() {
    // `ldi 0 5` writes register 0, but every tick clears it before reading.
    let emu = run_source("ldi 0 5\nadd a 0 0\nhalt");
    assert_eq!(emu.get_regfile()[1], 0);
}

#[test]
fn law_only_halt_stops() {
    let code = vec![[0, 1, 2, 3], [15, 0, 0, 0], [0, 0, 0, 0]];
    let mut emu = machine(&code);
    emu.start();
    emu.tick();
    assert!(emu.is_running());
    emu.tick();
    assert!(!emu.is_running());
}

#[test]
fn law_ram_store_and_load_back() {
    // The store uses the address of register 9 latched a tick earlier and the
    // value of its source register two ticks earlier.
    let emu = run_source("ldi i 5\nldi a 99\nnoop\nstore a\nload b\nhalt");
    assert_eq!(emu.get_ramfile()[5], 99);
    let mut expected = [0u8; 64];
    expected[5] = 99;
    assert_eq!(emu.get_ramfile(), expected);
    assert_eq!(emu.get_regfile()[2], 99);
}

#[test]
fn law_stack_push_then_pop() {
    let emu = run_source("ldi i 127\nldi a 77\nnoop\nstore a\nload b\nhalt");
    assert_eq!(emu.get_regfile()[2], 77);
    assert_eq!(emu.get_ramfile(), [0; 64]);
}

#[test]
fn output_port_store_reports_the_port() {
    let code = assemble("ldi i 123\nldi a 42\nnoop\nstore a\nhalt").unwrap();
    let mut emu = machine(&code);
    let ports = run(&mut emu);
    assert_eq!(ports, vec![123]);
    assert_eq!(emu.get_output(123), 42);
    assert_eq!(emu.get_output(124), 0);
}

#[test]
fn input_port_load() {
    let code = assemble("ldi i 124\nnoop\nnoop\nload a\nhalt").unwrap();
    let mut emu = machine(&code);
    emu.set_input(124, 17);
    emu.set_input(200, 99);
    run(&mut emu);
    assert_eq!(emu.get_regfile()[1], 17);
}

#[test]
fn law_call_return_delay() {
    let code: Vec<[u8; 4]> = vec![
        [13, 0, 5, 0], // call 5, returns to 3
        [9, 1, 1, 0],  // ldi a 1
        [9, 2, 2, 0],  // ldi b 2
        [9, 3, 3, 0],  // ldi c 3
        [15, 0, 0, 0], // halt
        [9, 4, 4, 0],  // ldi d 4
        [14, 0, 0, 0], // return
        [9, 5, 5, 0],  // ldi e 5
        [9, 6, 6, 0],  // ldi f 6
        [9, 7, 7, 0],  // ldi g 7 (skipped)
    ];
    let mut emu = machine(&code);
    run(&mut emu);
    assert_eq!(emu.get_regfile(), [0, 1, 2, 3, 4, 5, 6, 0, 0, 0, 0]);
}

#[test]
fn goto_takes_effect_after_two_ticks() {
    let code: Vec<[u8; 4]> = vec![
        [13, 8, 6, 0], // goto 6
        [9, 1, 1, 0],
        [9, 2, 2, 0],
        [9, 3, 3, 0],
        [9, 4, 4, 0],
        [15, 0, 0, 0],
        [9, 5, 5, 0],
        [15, 0, 0, 0],
    ];
    let mut emu = machine(&code);
    run(&mut emu);
    assert_eq!(emu.get_regfile(), [0, 1, 2, 0, 0, 5, 0, 0, 0, 0, 0]);
}

#[test]
fn law_branch_delay_four_ticks() {
    let code: Vec<[u8; 4]> = vec![
        [12, 13, 6, 0], // if not true -> 6: always taken
        [9, 1, 1, 0],
        [9, 2, 2, 0],
        [9, 3, 3, 0],
        [9, 4, 4, 0],
        [15, 0, 0, 0],
        [9, 5, 5, 0],
        [15, 0, 0, 0],
    ];
    let mut emu = machine(&code);
    run(&mut emu);
    assert_eq!(emu.get_regfile(), [0, 1, 2, 3, 4, 5, 0, 0, 0, 0, 0]);
}

#[test]
fn untaken_branch_falls_through() {
    // "true" is condition 5, which no flag answers: `if true` is never taken.
    let code: Vec<[u8; 4]> = vec![
        [12, 5, 6, 0],
        [9, 1, 1, 0],
        [9, 2, 2, 0],
        [9, 3, 3, 0],
        [9, 4, 4, 0],
        [15, 0, 0, 0],
        [9, 5, 5, 0],
        [15, 0, 0, 0],
    ];
    let mut emu = machine(&code);
    run(&mut emu);
    assert_eq!(emu.get_regfile(), [0, 1, 2, 3, 4, 0, 0, 0, 0, 0, 0]);
}

#[test]
fn zero_flag_branch() {
    // cmp a b sets zero when equal; `if zero` (condition 1) then jumps.
    let src = "ldi a 3\nldi b 3\ncmp a b\nif zero then hit\nnoop\nnoop\nnoop\nnoop\nldi c 1\nhalt\ndef hit\nldi d 1\nhalt";
    let emu = run_source(src);
    let r = emu.get_regfile();
    assert_eq!(r[3], 0);
    assert_eq!(r[4], 1);
}

#[test]
fn law_nibble_fields_roundtrip() {
    for n in [0u8, 1, 15, 16, 171, 200, 255] {
        let emu = run_source(&format!("ldi a {}\nhalt", n));
        assert_eq!(emu.get_regfile()[1], n);
    }
}

#[test]
fn can_tick_rejects_bad_fields() {
    let emu = machine(&vec![[0, 11, 0, 0]]);
    assert!(!emu.can_tick());
    let emu = machine(&vec![[11, 0, 11, 0]]);
    assert!(!emu.can_tick());
    let emu = machine(&vec![[13, 0, 255, 1]]);
    assert!(!emu.can_tick());
    let emu = machine(&vec![[0, 10, 0, 0]]);
    assert!(emu.can_tick());
    let emu = machine(&vec![[20, 99, 99, 99]]);
    assert!(emu.can_tick());
}

#[test]
fn set_input_ignores_other_ports() {
    let mut emu = BrummCpuEmulator::new();
    emu.set_input(10, 5);
    emu.set_input(127, 5);
    assert_eq!(emu.get_regfile(), [0; 11]);
}

#[test]
fn core_runs_the_same_instruction() {
    let mut core = brumm_cpu_emulator::new(vec![[9, 1, 1, 1], [15, 0, 0, 0]]);
    for _ in 0..10 {
        core.tick();
    }
    let mut core = brumm_cpu_emulator::new(vec![[0, 1, 2, 3]]);
    core.tick();
    core.tick();
}

#[test]
fn display_glyphs() {
    assert_eq!(display_glyph(0), Some('0'));
    assert_eq!(display_glyph(10), Some('a'));
    assert_eq!(display_glyph(36), Some('å'));
    assert_eq!(display_glyph(39), Some('A'));
    assert_eq!(display_glyph(68), Some(' '));
    assert_eq!(display_glyph(69), Some('\n'));
    assert_eq!(display_glyph(70), None);
}

#[test]
fn random_port_sets_only_its_input() {
    let code = assemble("ldi i 124\nnoop\nnoop\nload a\nhalt").unwrap();
    let mut emu = machine(&code);
    port_rng(&mut emu, 200);
    port_rng(&mut emu, 124);
    assert_eq!(emu.get_regfile(), [0; 11]);
    assert_eq!(emu.get_ramfile(), [0; 64]);
    assert_eq!(emu.get_output(124), 0);
    run(&mut emu);
    assert_eq!(emu.get_regfile()[9], 124);
}
