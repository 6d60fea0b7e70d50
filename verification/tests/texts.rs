use prek::text::{
    chars_of, first_word_of, from_utf8, from_utf8_lossy, lines_of, parse_octal_of, text_of,
    trim_end_of, trim_of, trim_start_of, word_len_of,
};

fn chars(text: &str) -> Vec<char> {
    text.chars().collect()
}

fn string(chars: &[char]) -> String {
    chars.iter().collect()
}

const SAMPLES: [&str; 16] = [
    "",
    " ",
    "a",
    "a b",
    "  a\tb  ",
    "\n",
    "a\n",
    "\r\n",
    "a\r\nb\r",
    "a\n\nb",
    "\u{a0}x\u{3000}",
    "\u{85}\u{2028}y z",
    "\u{200b}a\u{200b}",
    "a\r\r\nb",
    "\u{e9}\u{1680}w",
    "\n\n\n",
];

#[test]
fn lines_agree_with_the_standard_library() {
    for sample in SAMPLES {
        let expected: Vec<String> = sample.lines().map(str::to_owned).collect();
        let lines: Vec<String> = lines_of(sample).iter().map(|line| string(line)).collect();
        assert_eq!(lines, expected, "{sample:?}");
    }
}

#[test]
fn trimming_agrees_with_the_standard_library() {
    for sample in SAMPLES {
        let all = chars(sample);
        assert_eq!(string(trim_of(&all)), sample.trim());
        assert_eq!(string(trim_start_of(&all)), sample.trim_start());
        assert_eq!(string(trim_end_of(&all)), sample.trim_end());
    }
}

#[test]
fn words_agree_with_the_standard_library() {
    for sample in SAMPLES {
        let all = chars(sample);
        assert_eq!(
            first_word_of(&all).map(string),
            sample.split_whitespace().next().map(str::to_owned)
        );
        let before: &str = sample.splitn(2, char::is_whitespace).next().unwrap();
        assert_eq!(word_len_of(&all), before.chars().count());
    }
}

#[test]
fn white_space_is_the_unicode_property() {
    let listed: Vec<u32> = vec![
        0x09, 0x0a, 0x0b, 0x0c, 0x0d, 0x20, 0x85, 0xa0, 0x1680, 0x2000, 0x2001, 0x2002, 0x2003,
        0x2004, 0x2005, 0x2006, 0x2007, 0x2008, 0x2009, 0x200a, 0x2028, 0x2029, 0x202f, 0x205f,
        0x3000,
    ];
    for code in 0..0x11_0000u32 {
        if let Some(c) = char::from_u32(code) {
            assert_eq!(word_len_of(&[c]) == 0, listed.contains(&code), "{code:x}");
        }
    }
}

#[test]
fn octal_numbers_agree_with_the_standard_library() {
    for sample in [
        "", "+", "-", "0", "7", "8", "a", "100644", "100755", "+755", "-755", "++7", "+ 7",
        "37777777777", "40000000000", "037777777777", "777777777777777777777777777", "7 ", "0o7",
        "\u{663}",
    ] {
        assert_eq!(
            parse_octal_of(&chars(sample)),
            u32::from_str_radix(sample, 8).ok(),
            "{sample:?}"
        );
    }
    assert_eq!(parse_octal_of(&chars("100755")), Some(33261));
}

#[test]
fn characters_and_back() {
    for sample in SAMPLES {
        assert_eq!(chars_of(sample), chars(sample));
        assert_eq!(text_of(&chars_of(sample)), sample);
    }
}

const EDGES: [u8; 26] = [
    0x00, 0x0a, 0x41, 0x7f, 0x80, 0x8f, 0x90, 0x9f, 0xa0, 0xbf, 0xc0, 0xc1, 0xc2, 0xdf, 0xe0, 0xe1,
    0xec, 0xed, 0xee, 0xef, 0xf0, 0xf1, 0xf3, 0xf4, 0xf5, 0xff,
];

fn agrees_with_the_standard_library(bytes: &[u8]) {
    assert_eq!(from_utf8_lossy(bytes), String::from_utf8_lossy(bytes), "{bytes:x?}");
    match (from_utf8(bytes), std::str::from_utf8(bytes)) {
        (Ok(text), Ok(expected)) => assert_eq!(text, expected),
        (Err(err), Err(expected)) => {
            assert_eq!(err.valid_up_to, expected.valid_up_to(), "{bytes:x?}");
            assert_eq!(err.error_len, expected.error_len(), "{bytes:x?}");
        }
        (found, expected) => panic!("{bytes:x?}: {found:?} and {expected:?}"),
    }
}

#[test]
fn short_byte_sequences_decode_as_in_the_standard_library() {
    agrees_with_the_standard_library(b"");
    for a in 0..=255u8 {
        agrees_with_the_standard_library(&[a]);
        for b in 0..=255u8 {
            agrees_with_the_standard_library(&[a, b]);
        }
    }
}

#[test]
fn byte_sequences_of_edge_values_decode_as_in_the_standard_library() {
    for a in EDGES {
        for b in EDGES {
            for c in EDGES {
                agrees_with_the_standard_library(&[a, b, c]);
                for d in EDGES {
                    agrees_with_the_standard_library(&[a, b, c, d]);
                }
            }
        }
    }
}

#[test]
fn long_byte_sequences_decode_as_in_the_standard_library() {
    let mut state: u32 = 1;
    for len in 0..400usize {
        let mut bytes: Vec<u8> = Vec::new();
        for _ in 0..len {
            state = state.wrapping_mul(1_664_525).wrapping_add(1_013_904_223);
            bytes.push(EDGES[(state >> 16) as usize % EDGES.len()]);
        }
        agrees_with_the_standard_library(&bytes);
    }
}

#[test]
fn each_invalid_part_is_one_replacement() {
    assert_eq!(from_utf8_lossy(b"a\xe2\x82b"), "a\u{fffd}b");
    assert_eq!(from_utf8_lossy(b"\xe2\x28\xa1"), "\u{fffd}(\u{fffd}");
    assert_eq!(from_utf8_lossy(b"\xed\xa0\x80"), "\u{fffd}\u{fffd}\u{fffd}");
    assert_eq!(from_utf8_lossy(b"\xf0\x9f\x98"), "\u{fffd}");
    assert_eq!(from_utf8_lossy("\u{e9}\u{1f600}".as_bytes()), "\u{e9}\u{1f600}");
}

#[test]
fn line_feeds_end_what_stands_before_them() {
    for a in [&b"x\xe2\x82\n"[..], b"\xf0\n", b"\n", b"\xc3\xa9\xff\n"] {
        for b in [&b"\xacy"[..], b"", b"\x9f\x98\x80", b"z\xe2"] {
            let whole = [a, b].concat();
            let parts = format!("{}{}", from_utf8_lossy(a), from_utf8_lossy(b));
            assert_eq!(from_utf8_lossy(&whole), parts);
        }
    }
}

#[test]
fn lines_of_two_texts_add_up() {
    for a in ["", "\n", "x\r\n", "x\n\ny\n"] {
        for b in SAMPLES {
            let mut parts = lines_of(a);
            parts.extend(lines_of(b));
            assert_eq!(lines_of(&format!("{a}{b}")), parts);
        }
    }
}
