use wordnote::hex;
use wordnote::identifier::Identifier;
use wordnote::text;

#[test]
fn hex_digits_and_values() {
    let all = "0123456789abcdef";
    for (n, c) in all.chars().enumerate() {
        assert_eq!(hex::digit(n as u8), c);
        assert_eq!(hex::value(c), Some(n as u8));
    }
    assert_eq!(hex::digit(0x1f), 'f');
    assert_eq!(hex::digit(0xa0), '0');
    for c in ['g', 'A', 'F', ' ', '/', ':', '`', '+', '-', 'é', '\u{ff10}'] {
        assert_eq!(hex::value(c), None, "{:?}", c);
    }
}

#[test]
fn identifier_writes_six_lowercase_digits() {
    assert_eq!(Identifier::new(0x01, 0x00, 0x01).to_hex(), "010001");
    assert_eq!(Identifier::new(0, 0, 0).to_hex(), "000000");
    assert_eq!(Identifier::new(0xff, 0xff, 0xff).to_hex(), "ffffff");
    assert_eq!(Identifier::new(0xab, 0x0c, 0xd9).to_hex(), "ab0cd9");
}

#[test]
fn identifier_reads_its_canonical_form_only() {
    assert_eq!(Identifier::from_hex("010001"), Some(Identifier::new(1, 0, 1)));
    assert_eq!(Identifier::from_hex("ab0cd9"), Some(Identifier::new(0xab, 0x0c, 0xd9)));
    for s in ["", "0", "01000", "0100010", "AB0CD9", "ab0cdg", "+a+b+c", " 10001", "0x0001"] {
        assert_eq!(Identifier::from_hex(s), None, "{:?}", s);
    }
}

#[test]
fn hex_round_trip_over_a_spread_of_identifiers() {
    for n in (0..0x100_0000u64).step_by(4099) {
        let id = Identifier::from_number(n);
        let name = id.to_hex();
        assert_eq!(name, format!("{:06x}", n));
        assert_eq!(Identifier::from_hex(&name), Some(id));
    }
}

#[test]
fn identifier_number_is_big_endian_and_wraps() {
    assert_eq!(Identifier::from_number(0x010203), Identifier::new(1, 2, 3));
    assert_eq!(Identifier::from_number(0xffffff), Identifier::new(255, 255, 255));
    assert_eq!(Identifier::from_number(0x1000000), Identifier::new(0, 0, 0));
    assert_eq!(Identifier::from_number(u64::MAX), Identifier::new(255, 255, 255));
    assert_eq!(Identifier::from_number(0xdead_beef_0a0b0c), Identifier::new(0x0a, 0x0b, 0x0c));
}

#[test]
fn split_yields_one_more_piece_than_separators() {
    assert_eq!(text::split("", '-'), vec![""]);
    assert_eq!(text::split("a", '-'), vec!["a"]);
    assert_eq!(text::split("a-b-c", '-'), vec!["a", "b", "c"]);
    assert_eq!(text::split("-", '-'), vec!["", ""]);
    assert_eq!(text::split("a--b-", '-'), vec!["a", "", "b", ""]);
    assert_eq!(text::split("é-日本", '-'), vec!["é", "日本"]);
}

#[test]
fn split_agrees_with_std() {
    for s in ["", "-", "--", "a-b", "-a", "a-", "red-blue-jump", "a\nb", "x-y-z-"] {
        let expected: Vec<String> = s.split('-').map(|p| p.to_string()).collect();
        assert_eq!(text::split(s, '-'), expected, "{:?}", s);
    }
}

#[test]
fn join_puts_the_separator_between_neighbours() {
    let parts = |l: &[&str]| l.iter().map(|p| p.to_string()).collect::<Vec<String>>();
    assert_eq!(text::join(&parts(&[]), '-'), "");
    assert_eq!(text::join(&parts(&["a"]), '-'), "a");
    assert_eq!(text::join(&parts(&["a", "b", "c"]), '-'), "a-b-c");
    assert_eq!(text::join(&parts(&["", ""]), '-'), "-");
    for s in ["", "-", "a-b", "red-blue-jump", "x--y-"] {
        assert_eq!(text::join(&text::split(s, '-'), '-'), s);
    }
}

#[test]
fn characters_of_a_string_come_in_order() {
    assert_eq!(text::chars_of("aé-"), vec!['a', 'é', '-']);
    assert_eq!(text::chars_of(""), Vec::<char>::new());
}
