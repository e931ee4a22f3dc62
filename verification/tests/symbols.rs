use volvelle_field::fe::Fe;

const SYMBOLS: &str = "QPZRY9X8GF2TVDW0S3JN54KHCE6MUA7L";

#[test]
fn elements_are_written_by_the_table() {
    let table: Vec<char> = SYMBOLS.chars().collect();
    assert_eq!(table.len(), 32);
    for v in 0u8..32 {
        assert_eq!(char::from(Fe::from_bin(v)), table[v as usize]);
    }
    assert_eq!(char::from(Fe::zero()), 'Q');
    assert_eq!(char::from(Fe::one()), 'P');
    assert_eq!(char::from(Fe::from_bin(31)), 'L');
    let written: char = Fe::from_bin(15).into();
    assert_eq!(written, '0');
}

#[test]
fn symbols_are_read_as_their_elements() {
    let read: Vec<u8> = SYMBOLS.chars().map(|c| Fe::try_from(c).unwrap().to_bin()).collect();
    let expected: Vec<u8> = (0u8..32).collect();
    assert_eq!(read, expected);
}

#[test]
fn every_written_symbol_is_read_and_written_back() {
    for ch in SYMBOLS.chars() {
        assert_eq!(char::from(Fe::try_from(ch).unwrap()), ch);
    }
}

#[test]
fn every_element_is_written_and_read_back() {
    for v in 0u8..32 {
        assert_eq!(Fe::try_from(char::from(Fe::from_bin(v))), Ok(Fe::from_bin(v)));
    }
}

#[test]
fn no_two_elements_are_written_alike() {
    let written: Vec<char> = (0u8..32).map(|v| char::from(Fe::from_bin(v))).collect();
    for a in 0..32 {
        for b in 0..32 {
            assert_eq!(written[a] == written[b], a == b);
        }
    }
}

#[test]
fn sixteen_and_twenty_have_their_own_symbols() {
    assert_eq!(char::from(Fe::from_bin(16)), 'S');
    assert_eq!(char::from(Fe::from_bin(20)), '5');
    assert_eq!(Fe::try_from('S'), Ok(Fe::from_bin(16)));
    assert_eq!(Fe::try_from('5'), Ok(Fe::from_bin(20)));
}

#[test]
fn characters_outside_the_alphabet_are_rejected_by_name() {
    for ch in ['I', '1', 'B', 'O'] {
        assert_eq!(Fe::try_from(ch), Err(format!("invalid bech32 character {}", ch)));
    }
    assert_eq!(Fe::try_from('I'), Err("invalid bech32 character I".to_string()));
}

#[test]
fn lower_case_and_other_characters_are_rejected() {
    for ch in ['q', 'p', 'l', ' ', '-', '\0', '\u{e9}', '\u{10ffff}'] {
        assert_eq!(Fe::try_from(ch), Err(format!("invalid bech32 character {}", ch)));
    }
}

#[test]
fn exactly_thirty_two_characters_are_read() {
    let mut accepted = 0;
    for code in 0u32..0x250 {
        if let Some(ch) = char::from_u32(code) {
            match Fe::try_from(ch) {
                Ok(_) => accepted += 1,
                Err(message) => assert_eq!(message, format!("invalid bech32 character {}", ch)),
            }
        }
    }
    assert_eq!(accepted, 32);
}

#[test]
fn try_into_reads_a_symbol() {
    let read: Result<Fe, String> = 'Z'.try_into();
    assert_eq!(read, Ok(Fe::from_bin(2)));
}
