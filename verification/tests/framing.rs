use orbterm::framing::{bytes_to_come, cut, whole_characters};

fn units(held: &mut Vec<u8>, bytes: &[u8]) -> Vec<Vec<u8>> {
    cut(held, bytes)
}

fn unit(bytes: &[u8]) -> Vec<u8> {
    let mut unit = vec![0x18];
    unit.extend_from_slice(bytes);
    unit
}

#[test]
fn plain_output_is_one_unit() {
    let mut held = Vec::new();
    assert_eq!(units(&mut held, b"hello\r\nworld"), vec![unit(b"hello\r\nworld")]);
    assert!(held.is_empty());
    assert_eq!(units(&mut held, b""), Vec::<Vec<u8>>::new());
}

#[test]
fn sequences_are_units_of_their_own() {
    let mut held = Vec::new();
    assert_eq!(
        units(&mut held, b"a\x1b[31;1mb\x1bc\x1b(Bc\x1b[?25l"),
        vec![
            unit(b"a"),
            unit(b"\x1b[31;1m"),
            unit(b"b"),
            unit(b"\x1bc"),
            unit(b"\x1b(B"),
            unit(b"c"),
            unit(b"\x1b[?25l"),
        ]
    );
    assert!(held.is_empty());
}

#[test]
fn unfinished_sequence_is_held_back() {
    let mut held = Vec::new();
    assert_eq!(units(&mut held, b"ab\x1b[3"), vec![unit(b"ab")]);
    assert_eq!(held, b"\x1b[3".to_vec());
    assert_eq!(units(&mut held, b"1"), Vec::<Vec<u8>>::new());
    assert_eq!(held, b"\x1b[31".to_vec());
    assert_eq!(units(&mut held, b"mc"), vec![unit(b"\x1b[31m"), unit(b"c")]);
    assert!(held.is_empty());
    assert_eq!(units(&mut held, b"\x1b"), Vec::<Vec<u8>>::new());
    assert_eq!(held, b"\x1b".to_vec());
    assert_eq!(units(&mut held, b"7"), vec![unit(b"\x1b7")]);
}

#[test]
fn strings_end_with_bell_or_escape() {
    let mut held = Vec::new();
    assert_eq!(units(&mut held, b"\x1b]0;title\x07x"), vec![unit(b"\x1b]0;title\x07"), unit(b"x")]);
    assert_eq!(
        units(&mut held, b"\x1b]0;title\x1b\\x"),
        vec![unit(b"\x1b]0;title"), unit(b"\x1b\\"), unit(b"x")]
    );
    assert_eq!(
        units(&mut held, b"\x1bPdcs\x07\r\n\x18\x1b_apc\x1a"),
        vec![unit(b"\x1bPdcs\x07\r\n\x18"), unit(b"\x1b_apc\x1a")]
    );
    assert!(held.is_empty());
}

#[test]
fn strings_end_with_the_string_end() {
    let mut held = Vec::new();
    assert_eq!(
        units(&mut held, b"\x1bPqdata\x9cafter"),
        vec![unit(b"\x1bPqdata\x9c"), unit(b"after")]
    );
    assert_eq!(
        units(&mut held, b"\x1bP1;2:\x9cafter"),
        vec![unit(b"\x1bP1;2:\x9c"), unit(b"after")]
    );
    assert_eq!(
        units(&mut held, b"\x1b_apc\x9cx\x1b^pm\x9cy\x1bXsos\x9cz"),
        vec![
            unit(b"\x1b_apc\x9c"),
            unit(b"x"),
            unit(b"\x1b^pm\x9c"),
            unit(b"y"),
            unit(b"\x1bXsos\x9c"),
            unit(b"z"),
        ]
    );
    assert!(held.is_empty());
    assert_eq!(
        units(&mut held, b"\x1bP1;2?\x9ca\x1bP !0\x9cb\x1bP?1\x9c"),
        vec![unit(b"\x1bP1;2?\x9c"), unit(b"a"), unit(b"\x1bP !0\x9c"), unit(b"b")]
    );
    assert_eq!(held, b"\x1bP?1\x9c".to_vec());
    assert_eq!(units(&mut held, b"\x18"), vec![unit(b"\x1bP?1\x9c\x18")]);
    assert_eq!(units(&mut held, b"\x1bP1;2\x9cstill"), Vec::<Vec<u8>>::new());
    assert_eq!(held, b"\x1bP1;2\x9cstill".to_vec());
    assert_eq!(units(&mut held, b"\x1b\\"), vec![unit(b"\x1bP1;2\x9cstill"), unit(b"\x1b\\")]);
    assert_eq!(units(&mut held, b"\x1b]0;a\x9cb\x07c"), vec![unit(b"\x1b]0;a\x9cb\x07"), unit(b"c")]);
}

#[test]
fn escape_and_cancel_end_a_sequence_without_a_unit() {
    let mut held = Vec::new();
    assert_eq!(units(&mut held, b"\x1b[12\x1b[3m"), vec![unit(b"\x1b[3m")]);
    assert_eq!(units(&mut held, b"\x1b[12\x18m\x1b(\x1a0"), vec![unit(b"m"), unit(b"0")]);
    assert!(held.is_empty());
}

#[test]
fn control_bytes_inside_a_sequence_are_plain_output_at_once() {
    let mut held = Vec::new();
    assert_eq!(
        units(&mut held, b"\x1b[1\r\n;2\x7f\xc3H"),
        vec![unit(b"\r"), unit(b"\n"), unit(b"\x1b[1;2H")]
    );
    assert_eq!(units(&mut held, b"\x1b\x08c"), vec![unit(b"\x08"), unit(b"\x1bc")]);
}

#[test]
fn overlong_sequence_is_dropped_when_it_ends() {
    let mut held = Vec::new();
    let mut bytes = b"\x1b[".to_vec();
    bytes.extend(std::iter::repeat(b'1').take(5000));
    assert_eq!(units(&mut held, &bytes), Vec::<Vec<u8>>::new());
    assert_eq!(held.len(), 4096);
    assert_eq!(units(&mut held, b"11;2"), Vec::<Vec<u8>>::new());
    assert_eq!(held.len(), 4096);
    assert_eq!(units(&mut held, b"mtext"), vec![unit(b"text")]);
    assert!(held.is_empty());
    let mut bytes = b"\x1b[".to_vec();
    bytes.extend(std::iter::repeat(b';').take(4093));
    bytes.push(b'm');
    let cut_off = units(&mut held, &bytes);
    assert_eq!(cut_off.len(), 1);
    assert_eq!(cut_off[0].len(), 1 + 4096);
}

#[test]
fn overlong_string_is_taken_to_its_end_and_cut_off_as_far_as_it_was_kept() {
    let mut held = Vec::new();
    let mut bytes = b"\x1b]52;c;".to_vec();
    bytes.extend(std::iter::repeat(b'A').take(10000));
    assert_eq!(units(&mut held, &bytes), Vec::<Vec<u8>>::new());
    assert_eq!(held.len(), 4096);
    assert_eq!(units(&mut held, b"more of it"), Vec::<Vec<u8>>::new());
    let cut_off = units(&mut held, b"\x07shown");
    assert_eq!(cut_off.len(), 2);
    assert_eq!(cut_off[0].len(), 1 + 4096 + 1);
    assert_eq!(cut_off[0][..8], *b"\x18\x1b]52;c;");
    assert_eq!(cut_off[0][4097], 0x07);
    assert_eq!(cut_off[1], unit(b"shown"));
    assert!(held.is_empty());
}

#[test]
fn beginning_of_a_character_is_held_back() {
    let text = "a\u{e9}\u{20ac}\u{1F600}".as_bytes();
    for split in 0..=text.len() {
        let mut held = Vec::new();
        let mut all: Vec<u8> = Vec::new();
        for part in [&text[..split], &text[split..]] {
            for unit in units(&mut held, part) {
                assert_eq!(unit[0], 0x18);
                assert!(std::str::from_utf8(&unit[1..]).is_ok(), "split at {}", split);
                all.extend_from_slice(&unit[1..]);
            }
        }
        assert!(held.is_empty());
        assert_eq!(all, text);
    }
    let mut held = Vec::new();
    assert_eq!(units(&mut held, b"a\xe2\x82"), vec![unit(b"a")]);
    assert_eq!(held, vec![0xE2, 0x82]);
    assert_eq!(units(&mut held, b"\x1b[m"), vec![unit(b"\xe2\x82"), unit(b"\x1b[m")]);
}

#[test]
fn whole_characters_finds_the_unfinished_one() {
    assert_eq!(whole_characters(&vec![0x18]), 1);
    assert_eq!(whole_characters(&vec![0x18, b'a']), 2);
    assert_eq!(whole_characters(&vec![0x18, b'a', 0xC3]), 2);
    assert_eq!(whole_characters(&vec![0x18, 0xC3, 0xA9]), 3);
    assert_eq!(whole_characters(&vec![0x18, 0xE2]), 1);
    assert_eq!(whole_characters(&vec![0x18, 0xE2, 0x82]), 1);
    assert_eq!(whole_characters(&vec![0x18, 0xE2, 0x82, 0xAC]), 4);
    assert_eq!(whole_characters(&vec![0x18, 0xF0, 0x9F, 0x98]), 1);
    assert_eq!(whole_characters(&vec![0x18, 0xF0, 0x9F, 0x98, 0x80]), 5);
    assert_eq!(whole_characters(&vec![0xC3]), 1);
    assert_eq!(whole_characters(&Vec::new()), 0);
}

#[test]
fn bytes_to_come_goes_by_the_first_byte() {
    assert_eq!(bytes_to_come(b'a'), 0);
    assert_eq!(bytes_to_come(0x80), 0);
    assert_eq!(bytes_to_come(0xC1), 0);
    assert_eq!(bytes_to_come(0xC2), 1);
    assert_eq!(bytes_to_come(0xDF), 1);
    assert_eq!(bytes_to_come(0xE0), 2);
    assert_eq!(bytes_to_come(0xEF), 2);
    assert_eq!(bytes_to_come(0xF0), 3);
    assert_eq!(bytes_to_come(0xF4), 3);
    assert_eq!(bytes_to_come(0xF5), 0);
}

#[test]
fn control_sequence_passes_whole_wherever_it_is_split() {
    let sequence: &[u8] = b"\x1b[12;40H";
    for at in 0..sequence.len() {
        let mut held = Vec::new();
        assert_eq!(units(&mut held, &sequence[..at]), Vec::<Vec<u8>>::new());
        assert_eq!(held, sequence[..at].to_vec());
        assert_eq!(units(&mut held, &sequence[at..]), vec![unit(sequence)]);
        assert!(held.is_empty());
    }
}

fn handed_on(units: &[Vec<u8>]) -> Vec<u8> {
    let mut bytes = Vec::new();
    for unit in units {
        assert_eq!(unit[0], 0x18);
        bytes.extend_from_slice(&unit[1..]);
    }
    bytes
}

#[test]
fn output_in_two_pieces_is_cut_as_in_one() {
    let output: &[u8] =
        b"ab\xe2\x82\xac\x1b[1;31mred\x1b]0;title\x07\r\n\xf0\x9f\x98\x80\x1b(B\xc3\xa9\x1bPq#0\x9cz\xf0\xc3x";
    let mut held_whole = Vec::new();
    let whole = units(&mut held_whole, output);
    let mut expected = handed_on(&whole);
    if held_whole.first() != Some(&0x1b) {
        expected.extend_from_slice(&held_whole);
    }
    for at in 0..=output.len() {
        let mut held = Vec::new();
        let first = units(&mut held, &output[..at]);
        let rest = units(&mut held, &output[at..]);
        let mut got = handed_on(&first);
        got.extend_from_slice(&handed_on(&rest));
        if held.first() != Some(&0x1b) {
            got.extend_from_slice(&held);
        }
        assert_eq!(got, expected, "split at {}", at);
    }
}
