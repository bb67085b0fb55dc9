use setun70::charset::{decode_char, encode_char, encode_teletype, is_representable};
use setun70::io::{row_to_syllable, syllable_to_row, ByteDevice, Device, IoBus, TapePunch, TapeReader, Teletype};
use setun70::tryte::Tryte;

#[test]
fn encoded_characters_decode_back() {
    for v in -364..=364i16 {
        if let Some(c) = decode_char(v) {
            let k = encode_char(c).unwrap();
            assert_eq!(decode_char(k), Some(c));
        }
    }
    assert_eq!(decode_char(333), Some('-'));
}

#[test]
fn single_sign_rows_roundtrip() {
    for v in -364..=364i16 {
        let t = Tryte::from_i16(v);
        let pos = t.trits.iter().any(|x| x.to_i8() > 0);
        let neg = t.trits.iter().any(|x| x.to_i8() < 0);
        if !(pos && neg) {
            assert_eq!(row_to_syllable(syllable_to_row(&t)).to_i16(), v);
        }
    }
}

#[test]
fn teletype_typing_and_printing() {
    let mut tty = Teletype::new("АБ");
    tty.type_str("в Г");
    let mut rows = Vec::new();
    while let Some(b) = ByteDevice::read(&mut tty) {
        rows.push(b);
    }
    assert_eq!(rows.len(), 4); // А Б space Г; lowercase dropped
    let mut out = Teletype::new("");
    for b in rows {
        ByteDevice::write(&mut out, b);
    }
    assert_eq!(out.output, "АБ Г");
    assert!(ByteDevice::read(&mut tty).is_none());
}

#[test]
fn teletype_codes_of_space_and_newline() {
    assert_eq!(encode_teletype(' '), Some(270));
    assert_eq!(encode_teletype('\n'), Some(283));
    assert!(is_representable('Ж'));
    let mut out = Teletype::new("");
    ByteDevice::write(&mut out, syllable_to_row(&Tryte::from_i16(283)));
    assert_eq!(out.output, "\n");
}

#[test]
fn bus_routes_bytes_to_devices() {
    let mut bus = IoBus::new();
    assert_eq!(bus.read(-1, 1), None);
    bus.attach(-1, 1, Device(Box::new(TapeReader::new(vec![3, 4]))));
    bus.attach(1, -4, Device(Box::new(TapePunch::default())));
    assert_eq!(bus.read(-1, 1), Some(3));
    assert_eq!(bus.read(-1, 1), Some(4));
    assert_eq!(bus.read(-1, 1), None);
    assert!(bus.write(1, -4, 9));
    assert!(!bus.write(0, 0, 9));
}

#[test]
fn every_alphabet_character_echoes() {
    let mut alphabet: Vec<char> = vec![' ', '\n'];
    for v in -364..=364i16 {
        if let Some(c) = decode_char(v) {
            alphabet.push(c);
        }
    }
    for c in alphabet {
        let mut tty = Teletype::new(&c.to_string());
        let row = ByteDevice::read(&mut tty).unwrap();
        let mut out = Teletype::new("");
        ByteDevice::write(&mut out, row);
        assert_eq!(out.output, c.to_string());
    }
}

#[test]
fn sign_codes_survive_the_tape() {
    for k in -364i16..=364 {
        if decode_char(k).is_some() || k == 270 || k == 283 {
            let t = Tryte::from_i16(k);
            let back = row_to_syllable(syllable_to_row(&t));
            assert_eq!(back.to_i16(), k);
        }
    }
}

#[test]
fn tape_reader_gives_its_bytes_then_none() {
    let mut r = TapeReader::new(vec![7, 0, 64]);
    assert_eq!(ByteDevice::read(&mut r), Some(7));
    assert_eq!(ByteDevice::read(&mut r), Some(0));
    assert_eq!(ByteDevice::read(&mut r), Some(64));
    assert_eq!(ByteDevice::read(&mut r), None);
    assert_eq!(ByteDevice::read(&mut r), None);
}

#[test]
fn bus_write_reaches_only_the_addressed_device() {
    let mut bus = IoBus::new();
    bus.attach(-1, 1, Device(Box::new(TapeReader::new(vec![5]))));
    bus.attach(1, -4, Device(Box::new(TapePunch::default())));
    assert!(bus.write(1, -4, 9));
    assert_eq!(bus.read(-1, 1), Some(5));
    assert!(!bus.write(-1, 2, 9));
}

#[test]
fn attach_replaces_the_device_at_a_taken_address() {
    let mut bus = IoBus::new();
    bus.attach(-1, 1, Device(Box::new(TapeReader::new(vec![1, 2]))));
    bus.attach(0, 2, Device(Box::new(TapeReader::new(vec![9]))));
    bus.attach(-1, 1, Device(Box::new(TapeReader::new(vec![7]))));
    assert_eq!(bus.read(-1, 1), Some(7));
    assert_eq!(bus.read(-1, 1), None);
    assert_eq!(bus.read(0, 2), Some(9));
}

#[test]
fn exactly_ninety_one_codes_have_a_sign() {
    let n = (-364i16..=364).filter(|&k| decode_char(k).is_some()).count();
    assert_eq!(n, 91);
}

#[test]
fn teletype_printed_text_is_its_output() {
    let mut tty = Teletype::new("");
    ByteDevice::write(&mut tty, syllable_to_row(&Tryte::from_i16(283)));
    assert_eq!(tty.printed_text(), &tty.output);
    assert_eq!(tty.printed_text(), "\n");
}
