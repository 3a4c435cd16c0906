use pioemu::instr::set::Destn as SetDestn;
use pioemu::instr::{Instr, Instruction};
use pioemu::state::{bit_at, decode_to_instr, reverse, sat_shl, sat_shr, Block, Sm0Setup};

fn counter_setup() -> Sm0Setup {
    // set x, 3 / set y, 5, wrapping from slot 1 back to slot 0
    Sm0Setup {
        instructions: vec![0xe023, 0xe045],
        wrap_top: 1,
        wrap_bottom: 0,
        x_init: 9,
        y_init: 8,
        tx_seed: vec![0x1111_2222, 0x3333_4444],
        ..Default::default()
    }
}

#[test]
fn decode_set_word() {
    let instr = decode_to_instr(0xe023).unwrap();
    assert_eq!(instr, Instr { instruction: Instruction::SetImmediate { destn: SetDestn::X, data: 3 }, delay: 0, side_set: None });
    let delayed = decode_to_instr(0xe245).unwrap();
    assert_eq!(delayed.delay, 2);
    assert_eq!(delayed.instruction, Instruction::SetImmediate { destn: SetDestn::Y, data: 5 });
}

#[test]
fn configure_loads_and_preloads() {
    let mut block = Block::new();
    block.configure_sm0(&counter_setup());
    assert!(block.sms[0].enabled);
    assert!(!block.sms[1].enabled);
    assert_eq!(block.sms[0].state.x, 9);
    assert_eq!(block.sms[0].state.y, 8);
    assert_eq!(block.sms[0].state.tx_fifo.peek_front(), Some(0x1111_2222));
    assert_eq!(block.sms[0].state.tx_fifo.peek_back(), Some(0x3333_4444));
    assert_eq!(block.fifo_levels_sm0(), 0x02);
    assert!(block.instr_mem[0].is_some());
    assert!(block.instr_mem[2].is_none());
}

#[test]
fn step_runs_program_and_counts_cycles() {
    let mut block = Block::new();
    block.configure_sm0(&counter_setup());
    block.step();
    block.step();
    assert_eq!(block.sms[0].state.x, 3);
    assert_eq!(block.sms[0].state.y, 5);
    assert_eq!(block.sms[0].state.pc, 0);
    assert_eq!(block.cycle, 2);
    assert_eq!(block.irq_flags(), 0);
}

#[test]
fn idle_block_only_counts_cycles() {
    let mut block = Block::new();
    let event = block.step();
    assert_eq!(event.rx_pushed, None);
    assert_eq!(event.tx_popped, None);
    assert_eq!(event.irq_changed, None);
    assert_eq!(block.cycle, 1);
    assert_eq!(block.sms[0].state.pc, 0);
}

#[test]
fn readout_gives_isr_x_y_osr() {
    let mut block = Block::new();
    block.configure_sm0(&counter_setup());
    block.step();
    block.step();
    assert_eq!(block.drain_rx0(), Vec::<u32>::new());
    // Autopull is off, so the seeded TX words stay in the FIFO.
    let words = block.readout_suffix_sm0();
    assert_eq!(words, vec![0, 3, 5, 0]);
    assert_eq!(block.sms[0].state.tx_fifo.peek_front(), Some(0x1111_2222));
}

#[test]
fn autopull_refills_after_other_instructions() {
    let mut setup = counter_setup();
    setup.autopull = true;
    let mut block = Block::new();
    block.configure_sm0(&setup);
    block.step();
    assert_eq!(block.sms[0].state.osr, 0x1111_2222);
    assert_eq!(block.sms[0].state.osr_shift_count, 0);
    let words = block.readout_suffix_sm0();
    assert_eq!(words, vec![0, 3, 8, 0x1111_2222]);
    assert!(!block.sms[0].config.autopull);
}

#[test]
fn readout_during_pending_delay() {
    // set x, 3 [5] / set y, 5
    let mut setup = counter_setup();
    setup.instructions = vec![0xe523, 0xe045];
    let mut block = Block::new();
    block.configure_sm0(&setup);
    block.step();
    assert_eq!(block.sms[0].state.delay_counter, 5);
    assert_eq!(block.readout_suffix_sm0(), vec![0, 3, 8, 0]);
    assert_eq!(block.sms[0].state.x, 3);
    assert_eq!(block.sms[0].state.isr, 0);
}

#[test]
fn readout_without_refill() {
    let mut setup = counter_setup();
    setup.tx_seed = Vec::new();
    let mut block = Block::new();
    block.configure_sm0(&setup);
    block.step();
    let words = block.readout_suffix_sm0();
    assert_eq!(words, vec![0, 3, 8, 0]);
}

#[test]
fn push_and_drain() {
    // in x, 32 / push noblock (autopush off), looping
    let setup = Sm0Setup {
        instructions: vec![0x4020, 0x8000],
        wrap_top: 1,
        x_init: 0xdead_beef,
        ..Default::default()
    };
    let mut block = Block::new();
    block.configure_sm0(&setup);
    block.step();
    let event = block.step();
    assert_eq!(event.rx_pushed, Some(0xdead_beef));
    assert_eq!(block.fifo_levels_sm0(), 0x10);
    assert_eq!(block.drain_rx0(), vec![0xdead_beef]);
    assert_eq!(block.fifo_levels_sm0(), 0x00);
}

#[test]
fn small_bit_helpers() {
    assert!(bit_at(0b0000_0100, 2));
    assert!(!bit_at(0b0000_0100, 3));
    assert_eq!(sat_shl(0x8000_0001, 1), 0x0000_0002);
    assert_eq!(sat_shl(0xffff_ffff, 32), 0);
    assert_eq!(sat_shr(0x8000_0000, 31), 1);
    assert_eq!(sat_shr(0xffff_ffff, 32), 0);
}

#[test]
fn reverse_twice_is_identity() {
    for x in [0u32, 1, 0x8000_0000, 0x0000_010e, 0xdead_beef, u32::MAX] {
        assert_eq!(reverse(reverse(x)), x);
    }
    assert_eq!(reverse(1), 0x8000_0000);
}

#[test]
fn unmodelled_words_stay_empty() {
    // mov pindirs, x and wait 0 jmppin 0 are RP2350 instructions the emulator does not model.
    assert_eq!(decode_to_instr(0xa061), None);
    assert_eq!(decode_to_instr(0x2060), None);
    let setup = Sm0Setup { instructions: vec![0xa061, 0xe023], ..Default::default() };
    let mut block = Block::new();
    block.configure_sm0(&setup);
    assert!(block.instr_mem[0].is_none());
    assert!(block.instr_mem[1].is_some());
}

#[test]
fn readout_with_right_shift() {
    let mut setup = counter_setup();
    setup.tx_seed = Vec::new();
    setup.in_shiftdir_right = true;
    setup.out_shiftdir_right = true;
    let mut block = Block::new();
    block.configure_sm0(&setup);
    block.step();
    assert_eq!(block.readout_suffix_sm0(), vec![0, 3, 8, 0]);
}

#[test]
fn pins_with_base_zero() {
    // in pins, 8 / mov y, pins / wait 1 pin 3 with in_base 0 and right shift
    let setup = Sm0Setup {
        instructions: vec![0x4008, 0xa040, 0x20a3],
        wrap_top: 2,
        in_shiftdir_right: true,
        ..Default::default()
    };
    let mut block = Block::new();
    block.configure_sm0(&setup);
    block.gpio_in = 0x0000_00a5;
    block.step();
    assert_eq!(block.sms[0].state.isr, 0xa500_0000);
    block.step();
    assert_eq!(block.sms[0].state.y, 0x0000_00a5);
    block.step();
    assert_eq!(block.sms[0].state.pc, 2);
    block.gpio_in = 0x0000_00ad;
    block.step();
    assert_eq!(block.sms[0].state.pc, 0);
}

#[test]
fn rotate_by_whole_word() {
    assert_eq!(pioemu::state::wrap_shiftr(0x1234_5678, 0), 0x1234_5678);
    assert_eq!(pioemu::state::wrap_shiftr(0x1234_5678, 32), 0x1234_5678);
    assert_eq!(pioemu::state::wrap_shiftr(0x0000_0001, 1), 0x8000_0000);
}
