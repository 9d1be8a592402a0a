use qrcode::{Color, EcLevel, QrCode, Version};
use qsc_generator::backend::{encode, fits, EncodeError, MAX_PAYLOAD_LEN};
use qsc_generator::format::{ErrorCorrection, FormatParameter};

fn format(version: i16, level: ErrorCorrection) -> FormatParameter {
    FormatParameter { version, level }
}

#[test]
fn symbol_of_version_1_has_21_modules_per_side() {
    let symbol = encode(b"hello", &format(1, ErrorCorrection::L)).unwrap();
    assert_eq!(symbol.side(), 21);
    assert_eq!(symbol.modules().len(), 441);
}

#[test]
fn symbol_of_version_8_has_49_modules_per_side() {
    let symbol = encode(b"some bytes", &format(8, ErrorCorrection::L)).unwrap();
    assert_eq!(symbol.side(), 49);
    assert_eq!(symbol.modules().len(), 49 * 49);
}

#[test]
fn symbol_side_is_four_times_the_version_plus_17() {
    for version in [1i16, 2, 7, 8, 9] {
        let f = format(version, ErrorCorrection::M);
        let symbol = encode(b"x", &f).unwrap();
        assert_eq!(symbol.side(), 4 * version as usize + 17);
        assert_eq!(symbol.side(), f.side());
        assert_eq!(symbol.modules().len(), symbol.side() * symbol.side());
    }
}

#[test]
fn symbol_flags_mark_the_light_modules() {
    let symbol = encode(b"hello", &format(1, ErrorCorrection::L)).unwrap();
    let row = |y: usize| -> String {
        (0..21).map(|x| if symbol.module_at(x, y) { '.' } else { '#' }).collect()
    };
    assert_eq!(row(0), "#######..#.##.#######");
    assert_eq!(row(1), "#.....#.##.#..#.....#");
    assert_eq!(row(2), "#.###.#.##..#.#.###.#");
    assert_eq!(row(6), "#######.#.#.#.#######");
    assert_eq!(row(7), "........#####........");
    assert_eq!(row(20), "#######.#.###..#.#.#.");
}

#[test]
fn symbol_agrees_with_the_backend_module_by_module() {
    let data = b"item,value,timestamp\n1,2,3\n";
    for (version, level, ec) in [
        (2i16, ErrorCorrection::L, EcLevel::L),
        (3, ErrorCorrection::M, EcLevel::M),
        (5, ErrorCorrection::Q, EcLevel::Q),
        (8, ErrorCorrection::H, EcLevel::H),
    ] {
        let symbol = encode(data, &format(version, level)).unwrap();
        let code = QrCode::with_version(data, Version::Normal(version), ec).unwrap();
        assert_eq!(symbol.side(), code.width());
        let light: Vec<bool> = code.to_colors().iter().map(|c| *c == Color::Light).collect();
        assert_eq!(symbol.modules(), &light);
    }
}

#[test]
fn levels_are_told_apart() {
    let data = b"same payload";
    let l = encode(data, &format(4, ErrorCorrection::L)).unwrap();
    let h = encode(data, &format(4, ErrorCorrection::H)).unwrap();
    assert_ne!(l.modules(), h.modules());
}

#[test]
fn payload_beyond_the_data_bits_is_too_long() {
    let f = format(8, ErrorCorrection::L);
    assert!(encode(&vec![0xffu8; 192], &f).is_ok());
    assert_eq!(encode(&vec![0xffu8; 193], &f).err(), Some(EncodeError::DataTooLong));
    assert_eq!(encode(&vec![0xffu8; 3000], &f).err(), Some(EncodeError::DataTooLong));
}

#[test]
fn payload_beyond_the_hard_limit_is_too_long() {
    let f = format(9, ErrorCorrection::L);
    assert_eq!(MAX_PAYLOAD_LEN, 65_535);
    assert_eq!(encode(&vec![b'1'; MAX_PAYLOAD_LEN + 1], &f).err(), Some(EncodeError::DataTooLong));
    assert_eq!(encode(&vec![b'1'; MAX_PAYLOAD_LEN], &f).err(), Some(EncodeError::DataTooLong));
}

#[test]
fn version_that_does_not_exist_is_invalid() {
    for version in [0i16, -3, 41, i16::MAX] {
        assert_eq!(
            encode(b"a", &format(version, ErrorCorrection::L)).err(),
            Some(EncodeError::InvalidVersion)
        );
    }
    let long = vec![0u8; MAX_PAYLOAD_LEN + 1];
    assert_eq!(encode(&long, &format(0, ErrorCorrection::L)).err(), Some(EncodeError::InvalidVersion));
}

#[test]
fn empty_payload_has_a_symbol() {
    let symbol = encode(b"", &format(1, ErrorCorrection::H)).unwrap();
    assert_eq!(symbol.side(), 21);
}

#[test]
fn fits_says_whether_there_is_a_symbol() {
    let f = format(1, ErrorCorrection::L);
    assert!(fits(&vec![0xa5u8; 17], &f));
    assert!(!fits(&vec![0xa5u8; 18], &f));
    assert!(!fits(b"a", &format(0, ErrorCorrection::L)));
}

#[test]
fn digits_take_less_room_than_bytes() {
    let f = format(8, ErrorCorrection::L);
    assert!(fits(&vec![b'7'; 400], &f));
    assert!(!fits(&vec![b'z'; 400], &f));
}

#[test]
fn version_above_the_supported_ones_is_unsupported() {
    for version in [10i16, 11, 20, 39, 40] {
        for level in [ErrorCorrection::L, ErrorCorrection::H] {
            assert_eq!(encode(b"a", &format(version, level)).err(), Some(EncodeError::UnsupportedVersion));
            assert_eq!(encode(b"", &format(version, level)).err(), Some(EncodeError::UnsupportedVersion));
            assert!(!fits(b"a", &format(version, level)));
        }
    }
    let long = vec![0u8; MAX_PAYLOAD_LEN + 1];
    assert_eq!(encode(&long, &format(40, ErrorCorrection::L)).err(), Some(EncodeError::UnsupportedVersion));
}

#[test]
fn largest_supported_version_has_53_modules_per_side() {
    let symbol = encode(b"nine", &format(9, ErrorCorrection::L)).unwrap();
    assert_eq!(symbol.side(), 53);
    assert_eq!(symbol.modules().len(), 53 * 53);
}

#[test]
fn full_byte_payloads_at_the_largest_supported_version_have_symbols() {
    let f = format(9, ErrorCorrection::L);
    let stripes: Vec<u8> = (0..230usize).map(|i| [0x55u8, 0xaa, 0xff][i % 3]).collect();
    let ramp: Vec<u8> = (0..230usize).map(|i| (i * 37 % 256) as u8).collect();
    for payload in [vec![0x00u8; 230], vec![0xffu8; 230], vec![0x55u8; 230], vec![0xaau8; 230], stripes, ramp] {
        let symbol = encode(&payload, &f).unwrap();
        assert_eq!(symbol.side(), 53);
        assert_eq!(symbol.modules().len(), 53 * 53);
    }
    assert_eq!(encode(&vec![0xffu8; 231], &f).err(), Some(EncodeError::DataTooLong));
}

#[test]
fn uniform_payloads_have_symbols_at_every_supported_version() {
    let full = [17usize, 32, 53, 78, 106, 134, 154, 192, 230];
    for version in 1..=9i16 {
        let f = format(version, ErrorCorrection::L);
        let len = full[version as usize - 1];
        for byte in [0x00u8, 0x55, 0xaa, 0xff] {
            let symbol = encode(&vec![byte; len], &f).unwrap();
            assert_eq!(symbol.side(), 4 * version as usize + 17);
        }
    }
}
