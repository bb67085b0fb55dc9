use setun70::assembler::{assemble, assemble_syllable, format_syllable, AsmError};
use setun70::loader::{
    loader_constants, loader_program, rom13_vectors, sample_tape, LOADED_START, LOAD_ADDRS,
    RESULT_ADDR,
};
use setun70::memory::Page;
use setun70::syllables::info_by_value;
use setun70::tryte::Tryte;

#[test]
fn every_syllable_assembles_back_from_its_text() {
    for v in -364..=364i16 {
        let t = Tryte::from_i16(v);
        let text = format_syllable(&t);
        assert_eq!(assemble_syllable(&text).unwrap().to_i16(), v, "{}", text);
    }
}

#[test]
fn assembler_reads_blanks_and_signs() {
    assert_eq!(assemble_syllable("  = +12 ").unwrap().to_i16(), 12);
    assert_eq!(assemble_syllable("MACRO @@ -27").unwrap().to_i16(), assemble_syllable("MACRO @-27").unwrap().to_i16());
    assert_eq!(assemble_syllable("Ref1   h[0]@ 20").unwrap().to_i16(), -181);
    assert_eq!(assemble_syllable("\tS+T\n").unwrap().to_i16(), assemble_syllable("S+T").unwrap().to_i16());
}

#[test]
fn assembler_error_texts() {
    assert_eq!(assemble_syllable(" FOO "), Err(AsmError::Unknown("FOO".to_string())));
    assert_eq!(assemble_syllable("=x"), Err(AsmError::BadForm("=x".to_string())));
    assert_eq!(
        assemble_syllable("MACRO @5"),
        Err(AsmError::NotRepresentable("macro ka 5 outside -40..=-14 (its senior trit is k3 = -1)".to_string()))
    );
    assert_eq!(
        assemble_syllable("Ref2 h[0]@5"),
        Err(AsmError::NotRepresentable("Ref2 h[0]@5: k1 = 0 & k2 = 0 is the operational-syllable pattern".to_string()))
    );
    assert_eq!(assemble_syllable("Ref1 h[x]@5"), Err(AsmError::BadForm("Ref1 h[x]@5".to_string())));
    assert_eq!(assemble_syllable("Ref1 h[0]@41"), Err(AsmError::BadForm("Ref1 h[0]@41".to_string())));
    assert_eq!(assemble_syllable("MACRO @"), Err(AsmError::BadForm("MACRO @".to_string())));
}

#[test]
fn assemble_stops_at_first_error() {
    assert_eq!(assemble(&["S+T", "BAD", "=500"]), Err(AsmError::Unknown("BAD".to_string())));
    let empty: [&str; 0] = [];
    assert_eq!(assemble(&empty).unwrap().len(), 0);
}

#[test]
fn info_table_covers_the_range() {
    assert!(info_by_value(365).is_none());
    assert!(info_by_value(-365).is_none());
    let i = info_by_value(0).unwrap();
    assert!(i.is_op_syllable);
    assert_eq!(i.mnemonic, "R=T");
}

#[test]
fn loader_program_matches_its_text() {
    let mut src: Vec<String> = vec![
        "Ref1 h[0]@19".to_string(),
        "Ref1 h[0]@21".to_string(),
        "W=S".to_string(),
        "Ref1 h[0]@20".to_string(),
        "Ref1 h[0]@22".to_string(),
        "W=S".to_string(),
        "Ref3 h[0]@10".to_string(),
        "LOADU1".to_string(),
    ];
    for &a in &LOAD_ADDRS {
        src.push(format!("Ref1 h[0]@{}", a));
        src.push("W=S".to_string());
    }
    src.push("Ref3 h[0]@11".to_string());
    src.push("C=T".to_string());
    let refs: Vec<&str> = src.iter().map(|s| s.as_str()).collect();
    let expected = assemble(&refs).unwrap();
    assert_eq!(loader_program(), expected);
    assert_eq!(loader_program().len(), 32);
}

#[test]
fn sample_tape_matches_its_text() {
    let expected = assemble(&[
        "Ref3 h[0]@30", "Ref3 h[0]@31", "S+T", "Ref3 h[0]@28", "W=S", "Ref3 h[0]@37", "C=T",
        "=4", "=9", "=39", "=13",
    ])
    .unwrap();
    assert_eq!(sample_tape(), expected);
}

#[test]
fn loader_constants_and_vectors() {
    assert_eq!(loader_constants(), [(19, 26), (20, 12), (21, 269), (22, -136)]);
    assert_eq!(LOADED_START, 12);
    assert_eq!(RESULT_ADDR, 36);
    assert_eq!(assemble_syllable("Ref1 h[0]@10").unwrap().to_i16(), 269);
    let mut p = Page::zeroed();
    rom13_vectors(&mut p);
    assert_eq!(p.syllables[1].to_i16(), -30);
    assert_eq!(p.syllables[27], assemble_syllable("C=T").unwrap());
    assert_eq!(p.syllables[10], assemble_syllable("EXCHP").unwrap());
    assert_eq!(p.syllables[11], assemble_syllable("COPYG1").unwrap());
    assert_eq!(p.syllables[12], assemble_syllable("RETNMC").unwrap());
    assert_eq!(p.syllables[0].to_i16(), 0);
}

use setun70::firmware::{demo_image, echo_image, echo_program};

#[test]
fn firmware_images_match_their_text() {
    let img = demo_image();
    let s = |a: i8| (a + 40) as usize;
    assert_eq!(img.syllables[s(10)].to_i16(), 6);
    assert_eq!(img.syllables[s(11)].to_i16(), 7);
    assert_eq!(img.syllables[s(12)], assemble_syllable("Ref1 h[-]@20").unwrap());
    let program = assemble(&["Ref1 h[0]@10", "Ref1 h[0]@11", "S+T", "Ref1 h[0]@12", "W=S", "MACRO @-27"]).unwrap();
    for (i, t) in program.iter().enumerate() {
        assert_eq!(img.syllables[i], *t);
    }
    assert_eq!(img.syllables[s(0)].to_i16(), 0);
    let echo = echo_image();
    assert_eq!(echo.syllables[s(-39)].to_i16(), -30);
    assert_eq!(echo.syllables[s(-38)].to_i16(), -20);
    assert_eq!(echo.syllables[s(-28)], assemble_syllable("LOADG2").unwrap());
    assert_eq!(
        echo_program(),
        assemble(&["Ref1 h[0]@10", "LOADU1", "T=C", "Ref1 h[0]@13", "C=T"]).unwrap()
    );
}

#[test]
fn data_form_assembles_to_its_value() {
    for v in -364i16..=364 {
        let text = format!("={}", v);
        assert_eq!(assemble_syllable(&text).unwrap().to_i16(), v);
    }
}
