use pioemu::protocol::program::{make_request, AssembledProgram};
use pioemu::protocol::{Decoder, Request};

#[test]
fn framing_and_recovery() {
    let line = b"RUN1 16 0 0 2 0 0 3 e023 0241 80a0\r\n";
    let mut decoder = Decoder::default();
    for _ in 0..300 {
        assert!(decoder.push(b'x').is_none());
    }
    assert!(decoder.push(b'\n').unwrap().is_err());
    for _ in 0..2 {
        for byte in &line[..line.len() - 1] {
            assert!(decoder.push(*byte).is_none());
        }
        let request = decoder.push(b'\n').unwrap().unwrap();
        assert_eq!(request.ticks, 16);
        assert_eq!(&request.code[..3], &[0xe023, 0x0241, 0x80a0]);
    }
}

#[test]
fn invalid_requests() {
    for line in [
        "RUN1 0 0 0 0 0 0 1 e023",
        "RUN1 1001 0 0 0 0 0 1 e023",
        "RUN1 1 29 29 30 0 0 2 e023 e023",
        "RUN1 1 0 0 0 6 0 1 e023",
        "RUN1 1 0 0 0 0 0 1 001e",
        "RUN1 1 0 0 0 0 0 2 e023",
        "RUN1 1 0 0 0 0 0 1 e023 extra",
    ] {
        assert!(Request::parse(line).is_err(), "{line}");
    }
}

fn assembled(program: &pio::Program<32>) -> AssembledProgram {
    AssembledProgram {
        code: program.code.iter().copied().collect(),
        origin: program.origin,
        wrap_source: program.wrap.source,
        wrap_target: program.wrap.target,
        side_bits: program.side_set.bits(),
        side_optional: program.side_set.optional(),
        side_pindirs: program.side_set.pindirs(),
    }
}

#[test]
fn assembled_program_round_trip() {
    // .origin 4 / .side_set 1 opt / .wrap_target / set x, 3 side 1 /
    // loop: jmp x-- loop [2] / pull block / .wrap
    let mut a = pio::Assembler::<32>::new_with_side_set(pio::SideSet::new(true, 1, false));
    let mut wrap_target = a.label();
    let mut wrap_source = a.label();
    let mut lp = a.label();
    a.bind(&mut wrap_target);
    a.set_with_side_set(pio::SetDestination::X, 3, 1);
    a.bind(&mut lp);
    a.jmp_with_delay(pio::JmpCondition::XDecNonZero, &mut lp, 2);
    a.pull(false, true);
    a.bind(&mut wrap_source);
    let program = a.assemble_with_wrap(wrap_source, wrap_target).set_origin(Some(4));
    let request = make_request(&assembled(&program), 16).unwrap();
    assert_eq!(request.code[1] & 31, 5);
    assert_eq!((request.wrap_target, request.wrap_source), (4, 6));
    assert_eq!(request.side_bits, 2);
    assert!(request.side_optional);
    let mut wire = String::new();
    request.write(&mut wire);
    assert_eq!(Request::parse(&wire).unwrap(), request);
}
