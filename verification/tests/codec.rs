use libsoul::bytes::{push_u16_le, push_u32_le, push_u64_le, push_zeros, read_u16_le, read_u32_le, read_u64_le};
use libsoul::{Soul, SoulError, HEADER_SIZE, MAGIC, VERSION};

fn header(level: u32, xp: u64, quests: [u32; 8]) -> Vec<u8> {
    let mut bytes = Vec::new();
    bytes.extend_from_slice(b"SHC!");
    bytes.extend_from_slice(&1u16.to_le_bytes());
    bytes.extend_from_slice(&0u64.to_le_bytes());
    bytes.extend_from_slice(&level.to_le_bytes());
    bytes.extend_from_slice(&xp.to_le_bytes());
    for quest in quests {
        bytes.extend_from_slice(&quest.to_le_bytes());
    }
    bytes.extend_from_slice(&[0u8; 4]);
    bytes
}

#[test]
fn constants_of_the_format() {
    assert_eq!(&MAGIC, b"SHC!");
    assert_eq!(VERSION, 1);
    assert_eq!(HEADER_SIZE, 62);
}

#[test]
fn encode_lays_out_every_field() {
    let soul = Soul {
        level: 5,
        xp: 0x0102_0304_0506_0708,
        quests: [42, 0x0A0B_0C0D, 3, 4, 5, 6, 7, 0xFFFF_FFFF],
        hp: 200,
    };
    let bytes = soul.encode().unwrap();
    assert_eq!(bytes.len(), 262);
    assert_eq!(&bytes[0..4], b"SHC!");
    assert_eq!(&bytes[4..6], &[1, 0]);
    assert_eq!(&bytes[6..14], &[0; 8]);
    assert_eq!(&bytes[14..18], &[5, 0, 0, 0]);
    assert_eq!(&bytes[18..26], &[8, 7, 6, 5, 4, 3, 2, 1]);
    assert_eq!(&bytes[26..30], &[42, 0, 0, 0]);
    assert_eq!(&bytes[30..34], &[0x0D, 0x0C, 0x0B, 0x0A]);
    assert_eq!(&bytes[34..38], &[3, 0, 0, 0]);
    assert_eq!(&bytes[54..58], &[0xFF; 4]);
    assert_eq!(&bytes[58..62], &[0; 4]);
    assert!(bytes[62..].iter().all(|b| *b == 0));

    let mut expected = header(5, 0x0102_0304_0506_0708, soul.quests);
    expected.extend_from_slice(&[0u8; 200]);
    assert_eq!(bytes, expected);
}

#[test]
fn every_valid_level_round_trips() {
    for level in 0..=42u32 {
        for hp in [0, 1, Soul::max_hp(level) / 2, Soul::max_hp(level)] {
            let soul = Soul {
                level,
                xp: u64::MAX - level as u64,
                quests: [level, 0, u32::MAX, 7, 7, 0, 1, 2],
                hp,
            };
            let bytes = soul.encode().unwrap();
            assert_eq!(bytes.len() as u64, HEADER_SIZE + hp as u64);
            assert_eq!(Soul::decode(&bytes).unwrap(), soul);
        }
    }
}

#[test]
fn bare_header_decodes_to_no_hit_points() {
    let bytes = header(0, 0, [0; 8]);
    assert_eq!(bytes.len(), 62);
    let soul = Soul::decode(&bytes).unwrap();
    assert_eq!(soul.hp, 0);
    assert_eq!(soul.level, 0);

    let bytes = header(42, 9, [0, 0, 0, 0, 0, 0, 0, 3]);
    let soul = Soul::decode(&bytes).unwrap();
    assert_eq!(soul.hp, 0);
    assert_eq!(soul.level, 42);
    assert_eq!(soul.xp, 9);
    assert_eq!(soul.quests, [0, 0, 0, 0, 0, 0, 0, 3]);
}

#[test]
fn wrong_magic_fails_whatever_follows() {
    let mut bytes = header(0, 0, [0; 8]);
    bytes[3] = b'?';
    assert!(matches!(Soul::decode(&bytes), Err(SoulError::InvalidMagic([b'S', b'H', b'C', b'?']))));
    // Even with a wrong version and an impossible level behind it.
    bytes[4] = 9;
    bytes[17] = 0xFF;
    bytes.extend_from_slice(&[1u8; 5000]);
    assert!(matches!(Soul::decode(&bytes), Err(SoulError::InvalidMagic([b'S', b'H', b'C', b'?']))));
}

#[test]
fn short_source_fails_with_its_length() {
    assert!(matches!(Soul::decode(&[]), Err(SoulError::FileTooSmall(0))));
    assert!(matches!(Soul::decode(b"BAD!"), Err(SoulError::FileTooSmall(4))));
    let bytes = header(0, 0, [0; 8]);
    assert!(matches!(Soul::decode(&bytes[..61]), Err(SoulError::FileTooSmall(61))));
    assert!(Soul::decode(&bytes[..62]).is_ok());
}

#[test]
fn other_version_fails() {
    let mut bytes = header(0, 0, [0; 8]);
    bytes[4] = 2;
    assert!(matches!(Soul::decode(&bytes), Err(SoulError::UnsupportedVersion(2))));
    bytes[4] = 1;
    bytes[5] = 1;
    assert!(matches!(Soul::decode(&bytes), Err(SoulError::UnsupportedVersion(257))));
    bytes[4] = 0;
    bytes[5] = 0;
    assert!(matches!(Soul::decode(&bytes), Err(SoulError::UnsupportedVersion(0))));
}

#[test]
fn decoded_record_is_validated() {
    let bytes = header(43, 0, [0; 8]);
    assert!(matches!(Soul::decode(&bytes), Err(SoulError::InvalidLevel(43))));

    let mut bytes = header(0, 0, [0; 8]);
    bytes.extend_from_slice(&[0u8; 100]);
    assert_eq!(Soul::decode(&bytes).unwrap().hp, 100);
    bytes.push(0);
    assert!(matches!(Soul::decode(&bytes), Err(SoulError::InvalidHP { hp: 101, max: 100 })));

    // The level is judged before the hit points.
    let mut bytes = header(1000, 0, [0; 8]);
    bytes.extend_from_slice(&[0u8; 5000]);
    assert!(matches!(Soul::decode(&bytes), Err(SoulError::InvalidLevel(1000))));
}

#[test]
fn checksum_padding_and_trailer_content_are_ignored() {
    let mut bytes = header(3, 77, [1, 0, 0, 0, 0, 0, 0, 0]);
    bytes.extend_from_slice(&[0u8; 50]);
    let plain = Soul::decode(&bytes).unwrap();
    for i in 6..14 {
        bytes[i] = 0xAB;
    }
    for i in 58..62 {
        bytes[i] = 0xCD;
    }
    for i in 62..bytes.len() {
        bytes[i] = (i % 251) as u8 + 1;
    }
    let noisy = Soul::decode(&bytes).unwrap();
    assert_eq!(plain, noisy);
    assert_eq!(noisy.hp, 50);
    assert_eq!(noisy.level, 3);
    assert_eq!(noisy.xp, 77);
}

#[test]
fn encode_refuses_an_invalid_record() {
    let mut soul = Soul::new();
    soul.hp = 101;
    assert!(matches!(soul.encode(), Err(SoulError::InvalidHP { hp: 101, max: 100 })));
    soul.level = 42;
    soul.hp = 941;
    assert!(matches!(soul.encode(), Err(SoulError::InvalidHP { hp: 941, max: 940 })));
    soul.level = 43;
    assert!(matches!(soul.encode(), Err(SoulError::InvalidLevel(43))));
    soul.hp = 0;
    assert!(matches!(soul.encode(), Err(SoulError::InvalidLevel(43))));
}

#[test]
fn decode_from_header_and_length() {
    let head = header(2, 5, [8, 0, 0, 0, 0, 0, 0, 0]);
    let soul = Soul::decode_header(&head, 62 + 140).unwrap();
    assert_eq!(soul, Soul { level: 2, xp: 5, quests: [8, 0, 0, 0, 0, 0, 0, 0], hp: 140 });
    assert!(matches!(
        Soul::decode_header(&head, 62 + 141),
        Err(SoulError::InvalidHP { hp: 141, max: 140 })
    ));
    assert!(matches!(Soul::decode_header(&head[..10], 10), Err(SoulError::FileTooSmall(10))));
    assert!(matches!(Soul::decode_header(&[], 61), Err(SoulError::FileTooSmall(61))));
}

#[test]
fn source_longer_than_32_bits_is_not_wrapped() {
    let head = header(0, 0, [0; 8]);
    // 2^32 + 5 bytes after the header: not 5 hit points.
    let total = 62 + (1u64 << 32) + 5;
    assert!(matches!(
        Soul::decode_header(&head, total),
        Err(SoulError::InvalidHP { hp: u32::MAX, max: 100 })
    ));
    assert!(matches!(
        Soul::decode_header(&head, u64::MAX),
        Err(SoulError::InvalidHP { hp: u32::MAX, max: 100 })
    ));
    assert!(matches!(
        Soul::decode_header(&head, 62 + u32::MAX as u64),
        Err(SoulError::InvalidHP { hp: u32::MAX, max: 100 })
    ));
}

#[test]
fn little_endian_readers_agree_with_std() {
    let bytes: Vec<u8> = (1..=40u8).map(|b| b.wrapping_mul(37)).collect();
    for at in 0..30usize {
        assert_eq!(read_u16_le(&bytes, at), u16::from_le_bytes([bytes[at], bytes[at + 1]]));
        let mut four = [0u8; 4];
        four.copy_from_slice(&bytes[at..at + 4]);
        assert_eq!(read_u32_le(&bytes, at), u32::from_le_bytes(four));
        let mut eight = [0u8; 8];
        eight.copy_from_slice(&bytes[at..at + 8]);
        assert_eq!(read_u64_le(&bytes, at), u64::from_le_bytes(eight));
    }
    assert_eq!(read_u32_le(&[0xFF; 4], 0), u32::MAX);
    assert_eq!(read_u64_le(&[0xFF; 8], 0), u64::MAX);
}

#[test]
fn little_endian_writers_agree_with_std() {
    for v in [0u64, 1, 255, 256, 0xABCD, 0x1234_5678, u32::MAX as u64, 0x0102_0304_0506_0708, u64::MAX] {
        let mut out = vec![9u8];
        push_u16_le(&mut out, v as u16);
        push_u32_le(&mut out, v as u32);
        push_u64_le(&mut out, v);
        push_zeros(&mut out, 3);
        let mut expected = vec![9u8];
        expected.extend_from_slice(&(v as u16).to_le_bytes());
        expected.extend_from_slice(&(v as u32).to_le_bytes());
        expected.extend_from_slice(&v.to_le_bytes());
        expected.extend_from_slice(&[0, 0, 0]);
        assert_eq!(out, expected);
    }
}
