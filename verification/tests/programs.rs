use pioemu::instr::set::Destn as SetDestn;
use pioemu::instr::wait::Source as WaitSource;
use pioemu::instr::{Condition, Instr, Instruction};
use pioemu::state::{Block, State};

fn with_delay(instruction: Instruction, delay: u8) -> Instr {
    Instr { instruction, delay, side_set: None }
}

fn set(destn: SetDestn, data: u8, delay: u8) -> Instr {
    with_delay(Instruction::SetImmediate { destn, data }, delay)
}

fn jmp(condition: Condition, address: u8) -> Instr {
    with_delay(Instruction::Jmp { condition, address }, 0)
}

fn wait_gpio_level(polarity: u8, index: u8) -> Instr {
    with_delay(Instruction::Wait { polarity, source: WaitSource::Gpio, index }, 0)
}

fn setup(program: &[Instr], en: [bool; 4]) -> Block {
    let mut block = Block::new();
    for (i, instr) in program.iter().enumerate() {
        block.instr_mem[i] = Some(*instr);
    }
    for (i, sm) in block.sms.iter_mut().enumerate() {
        sm.enabled = en[i];
    }
    block
}

fn sm0(block: &Block) -> &State {
    &block.sms[0].state
}

#[test]
fn squarewave() {
    let program = [set(SetDestn::X, 1, 1), set(SetDestn::X, 0, 0), jmp(Condition::Always, 0)];
    let mut block = setup(&program, [true, true, true, true]);
    let mut xs: Vec<[u32; 4]> = Vec::new();
    let expected = vec![
        [1, 1, 1, 1],
        [1, 1, 1, 1],
        [0, 0, 0, 0],
        [0, 0, 0, 0],
        [1, 1, 1, 1],
        [1, 1, 1, 1],
        [0, 0, 0, 0],
        [0, 0, 0, 0],
    ];
    for _ in 0..8 {
        block.step();
        let x: [u32; 4] = std::array::from_fn(|i| block.sms[i].state.x);
        xs.push(x);
    }
    assert_eq!(xs, expected);
}

#[test]
fn countdown() {
    let program = [set(SetDestn::X, 3, 0), jmp(Condition::XDec, 1), set(SetDestn::Y, 31, 0)];
    let mut block = setup(&program, [true, false, false, false]);
    for _ in 0..5 {
        block.step();
    }
    assert_eq!(sm0(&block).x, u32::MAX);
    assert_eq!(sm0(&block).pc, 2);
    block.step();
    assert_eq!(sm0(&block).y, 31);
}

#[test]
fn wait_gpio() {
    let program = [wait_gpio_level(1, 0), set(SetDestn::X, 7, 0)];
    let mut block = setup(&program, [true, false, false, false]);
    block.gpio_in = 0;
    for _ in 0..5 {
        block.step();
    }
    assert_eq!(sm0(&block).pc, 0);
    assert_eq!(sm0(&block).x, 0);

    block.gpio_in = 1;
    block.step();
    assert_eq!(sm0(&block).pc, 1);
    block.step();
    assert_eq!(sm0(&block).x, 7);
}

#[test]
fn wait_zero() {
    let program = [wait_gpio_level(0, 3), set(SetDestn::X, 5, 0)];
    let mut block = setup(&program, [true, false, false, false]);
    block.gpio_in = 0b1000;
    for _ in 0..3 {
        block.step();
    }
    assert_eq!(sm0(&block).pc, 0);

    block.gpio_in = 0;
    block.step();
    assert_eq!(sm0(&block).pc, 1);
}

#[test]
fn delay_cycles() {
    let program = [set(SetDestn::X, 1, 3), set(SetDestn::X, 2, 0)];
    let mut block = setup(&program, [true, false, false, false]);
    block.step();
    assert_eq!(sm0(&block).x, 1);
    for _ in 0..3 {
        block.step();
        assert_eq!(sm0(&block).x, 1);
    }
    block.step();
    assert_eq!(sm0(&block).x, 2);
}

#[test]
fn jmp_x_eq_y() {
    let program = [set(SetDestn::X, 5, 0), set(SetDestn::Y, 5, 0), jmp(Condition::XNeqY, 0), set(SetDestn::X, 31, 0)];
    let mut block = setup(&program, [true, false, false, false]);
    block.step(); // set x, 5
    block.step(); // set y, 5
    block.step(); // jmp x!=y — equal, no jump
    block.step(); // set x, 31
    assert_eq!(sm0(&block).x, 31);
}
