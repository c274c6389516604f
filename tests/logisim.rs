use rustrsc::assembler::Assembler;
use rustrsc::logisim::parse_logisim;

#[test]
fn logisim_image_is_bit_exact() {
    let program = Assembler::parse("start: INC\n       JMP start\nv: DEADBEEF\n".to_string());
    let image = program.as_logisim();
    assert_eq!(
        String::from_utf8(image).unwrap(),
        "v2.0 raw\n0000000A\n00000005\n00000000\nDEADBEEF\n"
    );
}

#[test]
fn logisim_round_trip() {
    let program = Assembler::parse("LDAC x\nSTAC y\nHALT\nx: 0000002A\ny: FFFFFFFF\n".to_string());
    let image = program.as_logisim();
    assert_eq!(parse_logisim(&image), Some(program.instructions.clone()));
}

#[test]
fn logisim_empty_program() {
    let program = Assembler::parse(String::new());
    assert_eq!(program.as_logisim(), b"v2.0 raw\n".to_vec());
    assert_eq!(parse_logisim(&b"v2.0 raw\n".to_vec()), Some(vec![]));
}

#[test]
fn logisim_rejects_malformed_images() {
    assert_eq!(parse_logisim(&b"v2.0 raw\n0000000G\n".to_vec()), None);
    assert_eq!(parse_logisim(&b"v2.0 raw\n0000000\n".to_vec()), None);
    assert_eq!(parse_logisim(&b"v3.0 raw\n00000000\n".to_vec()), None);
    assert_eq!(parse_logisim(&b"v2.0 raw\n0000000a\n".to_vec()), Some(vec![10]));
}
