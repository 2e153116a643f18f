use rdump::dump::dump_bytes;

#[test]
fn compact_one_byte() {
    let data = vec![0x41u8];
    assert_eq!(dump_bytes(&data, false), "0000000 41\n0000001 \n");
}

#[test]
fn compact_three_bytes() {
    let data = vec![0x12u8, 0x34, 0x56];
    assert_eq!(dump_bytes(&data, false), "0000000 3412 56\n0000003 \n");
}

#[test]
fn compact_empty() {
    let data: Vec<u8> = vec![];
    assert_eq!(dump_bytes(&data, false), "0000000 \n");
}

#[test]
fn compact_two_bytes() {
    let data = vec![0x12u8, 0x34];
    assert_eq!(dump_bytes(&data, false), "0000000 3412\n0000002 \n");
}

#[test]
fn compact_sixteen_bytes() {
    let data: Vec<u8> = (0u8..16).collect();
    assert_eq!(
        dump_bytes(&data, false),
        "0000000 0100 0302 0504 0706 0908 0b0a 0d0c 0f0e\n0000010 \n"
    );
}

#[test]
fn compact_seventeen_bytes() {
    let data: Vec<u8> = (0u8..17).collect();
    assert_eq!(
        dump_bytes(&data, false),
        "0000000 0100 0302 0504 0706 0908 0b0a 0d0c 0f0e\n0000010 10\n0000011 \n"
    );
}

#[test]
fn compact_eight_bytes() {
    let data = b"/target\n".to_vec();
    assert_eq!(dump_bytes(&data, false), "0000000 742f 7261 6567 0a74\n0000008 \n");
}

#[test]
fn canonical_one_byte() {
    let data = vec![0x41u8];
    let line1 = format!("00000000  41 {} |A|\n", " ".repeat(46));
    let line2 = format!("00000001  {}\n", " ".repeat(50));
    assert_eq!(dump_bytes(&data, true), format!("{}{}", line1, line2));
}

#[test]
fn canonical_empty() {
    let data: Vec<u8> = vec![];
    assert_eq!(dump_bytes(&data, true), format!("00000000  {}\n", " ".repeat(50)));
}

#[test]
fn canonical_eight_bytes() {
    let data = b"/target\n".to_vec();
    let line1 = format!("00000000  2f 74 61 72 67 65 74 0a{}|/target.|\n", " ".repeat(27));
    let line2 = format!("00000008  {}\n", " ".repeat(50));
    assert_eq!(dump_bytes(&data, true), format!("{}{}", line1, line2));
}

#[test]
fn canonical_seven_bytes_substitutes_newline_and_cr() {
    let data = b"ab\ncd\re".to_vec();
    let line1 = format!("00000000  61 62 0a 63 64 0d 65{}|ab.cd.e|\n", " ".repeat(30));
    let line2 = format!("00000007  {}\n", " ".repeat(50));
    assert_eq!(dump_bytes(&data, true), format!("{}{}", line1, line2));
}

#[test]
fn canonical_full_line() {
    let data: Vec<u8> = (0x41u8..0x51).collect();
    let line1 = "00000000  41 42 43 44 45 46 47 48  49 4a 4b 4c 4d 4e 4f 50  |ABCDEFGHIJKLMNOP|\n";
    let line2 = format!("00000010  {}\n", " ".repeat(50));
    assert_eq!(dump_bytes(&data, true), format!("{}{}", line1, line2));
}

#[test]
fn canonical_high_byte_in_sidebar() {
    let data = vec![0xffu8];
    let line1 = format!("00000000  ff {} |\u{ff}|\n", " ".repeat(46));
    let line2 = format!("00000001  {}\n", " ".repeat(50));
    assert_eq!(dump_bytes(&data, true), format!("{}{}", line1, line2));
}

#[test]
fn line_count_is_windows_plus_one() {
    for len in [0usize, 1, 15, 16, 17, 31, 32, 33, 64] {
        let data: Vec<u8> = (0..len).map(|i| (i % 256) as u8).collect();
        let expected = (len + 15) / 16 + 1;
        for canonical in [false, true] {
            let text = dump_bytes(&data, canonical);
            let lines = text.bytes().filter(|b| *b == b'\n').count();
            assert_eq!(lines, expected);
        }
    }
}

#[test]
fn terminal_line_offset_is_source_length() {
    let data: Vec<u8> = (0u8..33).collect();
    let compact = dump_bytes(&data, false);
    assert!(compact.ends_with("0000021 \n"));
    let canonical = dump_bytes(&data, true);
    assert!(canonical.ends_with(&format!("00000021  {}\n", " ".repeat(50))));
}

#[test]
fn sidebar_accounts_for_every_byte() {
    for len in [1usize, 15, 16, 17, 33] {
        let data: Vec<u8> = (0..len).map(|i| (i % 256) as u8).collect();
        let text = dump_bytes(&data, true);
        let lines: Vec<&str> = text.lines().collect();
        let mut total = 0;
        for line in &lines[..lines.len() - 1] {
            let open = line.find('|').unwrap();
            let close = line.rfind('|').unwrap();
            total += line[open + 1..close].chars().count();
        }
        assert_eq!(total, len);
    }
}

#[test]
fn dump_is_deterministic() {
    let data: Vec<u8> = (0u8..50).collect();
    assert_eq!(dump_bytes(&data, false), dump_bytes(&data, false));
    assert_eq!(dump_bytes(&data, true), dump_bytes(&data, true));
}

#[test]
fn compact_offsets_ascend_by_window() {
    let data: Vec<u8> = (0u8..40).collect();
    let text = dump_bytes(&data, false);
    let lines: Vec<&str> = text.lines().collect();
    assert_eq!(lines.len(), 4);
    assert!(lines[0].starts_with("0000000 "));
    assert!(lines[1].starts_with("0000010 "));
    assert!(lines[2].starts_with("0000020 "));
    assert!(lines[3].starts_with("0000028 "));
}
