use pioemu::protocol::program::{make_request, AssembledProgram};
use pioemu::protocol::{Decoder, Request, MAX_WORDS};

fn program(code: Vec<u16>, origin: Option<u8>) -> AssembledProgram {
    let top = (code.len() as u8).saturating_sub(1);
    AssembledProgram { code, origin, wrap_source: top, wrap_target: 0, side_bits: 0, side_optional: false, side_pindirs: false }
}

fn request(ticks: u32, code: &[u16]) -> Request {
    let mut words = [0u16; MAX_WORDS];
    words[..code.len()].copy_from_slice(code);
    Request {
        ticks,
        origin: 0,
        wrap_target: 0,
        wrap_source: (code.len() - 1) as u8,
        side_bits: 0,
        side_optional: false,
        side_pindirs: false,
        len: code.len(),
        code: words,
    }
}

#[test]
fn validate_reports_each_rule() {
    assert_eq!(request(16, &[0xe023]).validate(), Ok(()));
    assert_eq!(request(0, &[0xe023]).validate(), Err("ticks must be 1..1000"));
    assert_eq!(request(1001, &[0xe023]).validate(), Err("ticks must be 1..1000"));
    let mut r = request(1, &[0xe023]);
    r.len = 0;
    assert_eq!(r.validate(), Err("program must fit in instruction slots 0..29"));
    let mut r = request(1, &[0xe023]);
    r.wrap_source = 1;
    assert_eq!(r.validate(), Err("wrap outside program"));
    let mut r = request(1, &[0xe023]);
    r.side_optional = true;
    assert_eq!(r.validate(), Err("invalid side-set"));
    assert_eq!(request(1, &[0x001e]).validate(), Err("JMP targets reserved marker slots"));
}

#[test]
fn write_then_parse() {
    let mut r = request(16, &[0xe023, 0x0041, 0x80a0]);
    r.side_bits = 2;
    r.side_optional = true;
    r.side_pindirs = true;
    let mut wire = String::new();
    r.write(&mut wire);
    assert_eq!(wire, "RUN1 16 0 0 2 2 3 3 e023 0041 80a0\n");
    assert_eq!(Request::parse(&wire).unwrap(), r);
}

#[test]
fn parse_accepts_spacing_and_crlf() {
    let r = Request::parse("  RUN1\t5 0 0 0 0 0 1 E023 \r\n").unwrap();
    assert_eq!(r.ticks, 5);
    assert_eq!(r.len, 1);
    assert_eq!(r.code[0], 0xe023);
    assert!(Request::parse("RUN2 5 0 0 0 0 0 1 e023").is_err());
    assert!(Request::parse("RUN1 5 0 0 0 0 0 1").is_err());
}

#[test]
fn decoder_errors() {
    let mut d = Decoder::default();
    assert!(d.push(0xff).is_none());
    assert_eq!(d.push(b'\n'), Some(Err("invalid UTF-8")));
    for _ in 0..257 {
        assert!(d.push(b'a').is_none());
    }
    assert_eq!(d.push(b'\n'), Some(Err("request too long")));
    for b in b"RUN1 1 0 0 0 0 0 1 e023" {
        assert!(d.push(*b).is_none());
    }
    assert_eq!(d.push(b'\n'), Some(Ok(request(1, &[0xe023]))));
}

#[test]
fn make_request_relocates_and_checks() {
    let r = make_request(&program(vec![0xe023, 0x0041, 0x80a0], Some(3)), 10).unwrap();
    assert_eq!(r.origin, 3);
    assert_eq!(r.code[1], 0x0044);
    assert_eq!(r.code[0], 0xe023);
    assert_eq!((r.wrap_target, r.wrap_source), (3, 5));
    assert_eq!(r.len, 3);
    assert_eq!(r.code[3], 0);
    let r0 = make_request(&program(vec![0xe023], None), 10).unwrap();
    assert_eq!(r0.origin, 0);
    assert_eq!(make_request(&program(vec![0xe023; 31], None), 10), Err("Program must fit in instruction slots 0..29"));
    assert_eq!(make_request(&program(vec![0xe023; 3], Some(28)), 10), Err("Program must fit in instruction slots 0..29"));
    assert_eq!(make_request(&program(vec![0x001d], Some(1)), 10), Err("JMP targets reserved or out-of-range instruction slot"));
    assert_eq!(make_request(&program(vec![0xe023], None), 0), Err("ticks must be 1..1000"));
}

#[test]
fn parse_reports_each_error() {
    assert_eq!(Request::parse("RUN2 1 0 0 0 0 0 1 e023"), Err("expected RUN1"));
    assert_eq!(Request::parse(""), Err("expected RUN1"));
    assert_eq!(Request::parse("RUN1 1 0 0"), Err("missing field"));
    assert_eq!(Request::parse("RUN1 x 0 0 0 0 0 1 e023"), Err("invalid number"));
    assert_eq!(Request::parse("RUN1 1 256 0 0 0 0 1 e023"), Err("field out of range"));
    assert_eq!(Request::parse("RUN1 1 0 0 0 0 4 1 e023"), Err("invalid flags or length"));
    assert_eq!(Request::parse("RUN1 1 0 0 0 0 0 31 e023"), Err("invalid flags or length"));
    assert_eq!(Request::parse("RUN1 1 0 0 0 0 0 2 e023"), Err("missing instruction"));
    assert_eq!(Request::parse("RUN1 1 0 0 0 0 0 1 zz"), Err("invalid instruction"));
    assert_eq!(Request::parse("RUN1 1 0 0 0 0 0 1 e023 extra"), Err("extra fields"));
    assert_eq!(Request::parse("RUN1 +1 0 0 0 0 0 1 +e023").unwrap(), request(1, &[0xe023]));
}
