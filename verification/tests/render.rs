use pioemu::instr::set::Destn as SetDestn;
use pioemu::instr::{mov, shift, wait, Condition, Instr, Instruction};
use pioemu::state::{Block, Sm0Setup};

fn plain(instruction: Instruction) -> String {
    instruction.to_string()
}

#[test]
fn instruction_text() {
    assert_eq!(plain(Instruction::Jmp { condition: Condition::Always, address: 7 }), "jmp 7");
    assert_eq!(plain(Instruction::Jmp { condition: Condition::XDec, address: 3 }), "jmp x--, 3");
    assert_eq!(plain(Instruction::Jmp { condition: Condition::OsrNotEmpty, address: 12 }), "jmp !osre, 12");
    assert_eq!(plain(Instruction::Wait { polarity: 1, source: wait::Source::Irq, index: 4 }), "wait 1 irq 4");
    assert_eq!(plain(Instruction::In { source: shift::Source::Pins, bit_count: 0 }), "in pins, 32");
    assert_eq!(plain(Instruction::In { source: shift::Source::Reserved1, bit_count: 3 }), "in ???, 3");
    assert_eq!(plain(Instruction::Out { destn: shift::Destn::PinDirs, bit_count: 5 }), "out pindirs, 5");
    assert_eq!(plain(Instruction::Push { if_full: 1, block: 0 }), "push iffull noblock");
    assert_eq!(plain(Instruction::Push { if_full: 0, block: 1 }), "push");
    assert_eq!(plain(Instruction::Pull { if_empty: 1, block: 1 }), "pull ifempty");
    assert_eq!(plain(Instruction::Mov { destn: mov::Destn::X, op: mov::Op::Invert, source: mov::Source::Y }), "mov x, !y");
    assert_eq!(plain(Instruction::Mov { destn: mov::Destn::Isr, op: mov::Op::BitReverse, source: mov::Source::Osr }), "mov isr, ::osr");
    assert_eq!(plain(Instruction::Mov { destn: mov::Destn::Pc, op: mov::Op::Identity, source: mov::Source::Status }), "mov pc, status");
    assert_eq!(plain(Instruction::Irq { clear: 1, wait: 1, index: 2 }), "irq clear 2");
    assert_eq!(plain(Instruction::Irq { clear: 0, wait: 1, index: 2 }), "irq wait 2");
    assert_eq!(plain(Instruction::Irq { clear: 0, wait: 0, index: 17 }), "irq 17");
    assert_eq!(plain(Instruction::SetImmediate { destn: SetDestn::PinDirs, data: 1 }), "set pindirs, 1");
}

#[test]
fn instr_text_with_side_and_delay() {
    let i = Instr { instruction: Instruction::SetImmediate { destn: SetDestn::X, data: 3 }, delay: 2, side_set: Some(1) };
    assert_eq!(i.to_string(), "set x, 3 side 1 [2]");
    let j = Instr { instruction: Instruction::Pull { if_empty: 0, block: 1 }, delay: 0, side_set: None };
    assert_eq!(j.to_string(), "pull");
}

#[test]
fn block_text_after_reset() {
    let block = Block::new();
    assert_eq!(
        block.to_string(),
        "=== PIO Block (cycle 0) ===\ngpio: out=00000000 dir=00000000 in=00000000\nsm0: [off]\nsm1: [off]\nsm2: [off]\nsm3: [off]\n"
    );
}

#[test]
fn state_and_fifo_text() {
    let setup = Sm0Setup {
        instructions: vec![0xe023],
        x_init: 0x1234_abcd,
        tx_seed: vec![1, 0xffff_ffff],
        ..Default::default()
    };
    let mut block = Block::new();
    block.configure_sm0(&setup);
    assert_eq!(block.sms[0].state.tx_fifo.to_string(), "[00000001, ffffffff] (2/4)");
    assert_eq!(block.sms[0].state.rx_fifo.to_string(), "[empty]");
    assert_eq!(
        block.sms[0].to_string(),
        "[on]  pc=00 x=1234abcd y=00000000 osr=00000000(32) isr=00000000(0)\n    tx: [00000001, ffffffff] (2/4)  rx: [empty]"
    );
    assert_eq!(block.sms[1].to_string(), "[off]");
}

#[test]
fn config_text_after_reset() {
    let block = Block::new();
    assert_eq!(
        block.sms[0].config.to_string(),
        "  wrap=0..31 jmp_pin=0\n  pins: out=0+0 set=0+5 in=0 sideset=0+0\n  shift: out=R in=R autopull=off autopush=off pull_thresh=0 push_thresh=0"
    );
    assert_eq!(block.sms[0].config.in_shiftdir.to_string(), "R");
}

#[test]
fn program_listing() {
    let setup = Sm0Setup { instructions: vec![0xe023, 0x0041], origin: 9, ..Default::default() };
    let mut block = Block::new();
    block.configure_sm0(&setup);
    assert_eq!(block.instr_mem_text(), "program:\n  09: set x, 3\n  10: jmp x--, 1\n");
}
