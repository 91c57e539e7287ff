use typos_lsp::position::AccumulatePosition;

fn std_utf16_len(bytes: &[u8]) -> usize {
    String::from_utf8_lossy(bytes).chars().map(char::len_utf16).sum()
}

fn fresh_pos(buffer: &[u8], offset: usize) -> (usize, usize) {
    AccumulatePosition::new().pos(buffer, offset)
}

#[test]
fn position_ascii_lines() {
    let buffer = b"this is an apropriate test\nfo typos\n";
    assert_eq!(fresh_pos(buffer, 0), (0, 0));
    assert_eq!(fresh_pos(buffer, 11), (0, 11));
    assert_eq!(fresh_pos(buffer, 27), (1, 0));
    assert_eq!(fresh_pos(buffer, 30), (1, 3));
    assert_eq!(fresh_pos(buffer, buffer.len()), (2, 0));
}

#[test]
fn position_counts_utf16_units() {
    // ¿ and é are two-byte code points in utf-8
    let text = "¿Qué hace él?";
    let offset = text.find("hace").unwrap();
    assert_eq!(fresh_pos(text.as_bytes(), offset), (0, 5));

    // ẽ has two code points U+0065 U+0303
    let text = "e\u{303} hace";
    let offset = text.find("hace").unwrap();
    assert_eq!(fresh_pos(text.as_bytes(), offset), (0, 3));

    // a code point past U+FFFF takes two UTF-16 code units
    let text = "😀 fo";
    let offset = text.find("fo").unwrap();
    assert_eq!(fresh_pos(text.as_bytes(), offset), (0, 3));
}

#[test]
fn position_incremental_matches_fresh() {
    let text = "a\nbb\n¿c\n\nd 😀 e\nfinal";
    let bytes = text.as_bytes();
    let mut accum = AccumulatePosition::new();
    let offsets: Vec<usize> = text.char_indices().map(|(i, _)| i).collect();
    for &offset in &offsets {
        let inc = accum.pos(bytes, offset);
        assert_eq!(inc, fresh_pos(bytes, offset));
        let line = bytes[..offset].iter().filter(|b| **b == b'\n').count();
        assert_eq!(inc.0, line);
    }
}

#[test]
fn position_same_offset_twice() {
    let bytes = b"ab\ncd";
    let mut accum = AccumulatePosition::new();
    assert_eq!(accum.pos(bytes, 4), (1, 1));
    assert_eq!(accum.pos(bytes, 4), (1, 1));
}

#[test]
fn position_lossy_matches_std_on_invalid_utf8() {
    let samples: Vec<Vec<u8>> = vec![
        vec![0xff, b'a'],
        vec![0xc3],
        vec![0xc3, 0x28, b'x'],
        vec![0xe2, 0x82],
        vec![0xe2, 0x82, b'x'],
        vec![0xe0, 0x80, 0x80],
        vec![0xed, 0xa0, 0x80],
        vec![0xf0, 0x9f, 0x98],
        vec![0xf0, 0x9f, 0x98, 0x80, b'z'],
        vec![0xf4, 0x90, 0x80, 0x80],
        vec![0xf5, 0x80],
        vec![0x80, 0xbf, 0xc0, 0xc1],
    ];
    for sample in samples {
        let (_, col) = fresh_pos(&sample, sample.len());
        assert_eq!(col, std_utf16_len(&sample), "sample {:?}", sample);
    }
}

#[test]
fn position_lossy_matches_std_exhaustively_on_short_sequences() {
    let interesting: Vec<u8> = vec![
        0x00, 0x0a, 0x41, 0x7f, 0x80, 0x8f, 0x90, 0x9f, 0xa0, 0xbf, 0xc0, 0xc1, 0xc2, 0xdf,
        0xe0, 0xe1, 0xec, 0xed, 0xee, 0xef, 0xf0, 0xf1, 0xf3, 0xf4, 0xf5, 0xff,
    ];
    for &a in &interesting {
        for &b in &interesting {
            for &c in &interesting {
                let sample = [a, b, c, 0x80];
                let line_start = sample.iter().rposition(|x| *x == b'\n').map(|i| i + 1).unwrap_or(0);
                let (_, col) = fresh_pos(&sample, sample.len());
                assert_eq!(col, std_utf16_len(&sample[line_start..]), "sample {:?}", sample);
            }
        }
    }
}
