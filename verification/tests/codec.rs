use wordnote::codec::{nurltowurl, wurltonurl, WordCodec};
use wordnote::identifier::Identifier;
use wordnote::table::{TableError, WordTable};

fn words(list: &[&str]) -> Vec<String> {
    list.iter().map(|w| w.to_string()).collect()
}

fn colours() -> WordCodec {
    let adjectives = WordTable::new(words(&["red", "blue"])).unwrap();
    let verbs = WordTable::new(words(&["run", "jump"])).unwrap();
    WordCodec::new(adjectives, verbs)
}

#[test]
fn identifier_encodes_to_alias() {
    let codec = colours();
    let alias = codec.identifier_to_alias(Identifier::new(0x01, 0x00, 0x01));
    assert_eq!(alias, Some("blue-red-jump".to_string()));
}

#[test]
fn alias_decodes_to_canonical_name() {
    let codec = colours();
    assert_eq!(
        codec.alias_to_identifier("blue-red-jump"),
        Some(Identifier::new(1, 0, 1))
    );
    assert_eq!(
        wurltonurl(&codec, "blue-red-jump".to_string()),
        Some("010001".to_string())
    );
}

#[test]
fn canonical_name_gives_alias() {
    let codec = colours();
    assert_eq!(
        nurltowurl(&codec, "010001".to_string()),
        Some("blue-red-jump".to_string())
    );
    assert_eq!(
        nurltowurl(&codec, "000000".to_string()),
        Some("red-red-run".to_string())
    );
}

#[test]
fn round_trip_over_every_identifier_with_words() {
    let codec = colours();
    for b0 in 0..2u8 {
        for b1 in 0..2u8 {
            for b2 in 0..2u8 {
                let id = Identifier::new(b0, b1, b2);
                let alias = codec.identifier_to_alias(id).unwrap();
                assert_eq!(codec.alias_to_identifier(&alias), Some(id));
            }
        }
    }
}

#[test]
fn round_trip_over_every_alias_in_vocabulary() {
    let codec = colours();
    for a in ["red", "blue"] {
        for b in ["red", "blue"] {
            for v in ["run", "jump"] {
                let alias = format!("{}-{}-{}", a, b, v);
                let id = codec.alias_to_identifier(&alias).unwrap();
                assert_eq!(codec.identifier_to_alias(id), Some(alias));
            }
        }
    }
}

#[test]
fn alias_of_wrong_shape_is_absent() {
    let codec = colours();
    for alias in [
        "",
        "red",
        "red-blue",
        "red-blue-run-jump",
        "red_blue_run",
        "red blue run",
        "red-blue-run-",
        "-red-blue-run",
        "red--blue-run",
    ] {
        assert_eq!(codec.alias_to_identifier(alias), None, "{:?}", alias);
        assert_eq!(wurltonurl(&codec, alias.to_string()), None, "{:?}", alias);
    }
}

#[test]
fn alias_with_unknown_word_is_absent() {
    let codec = colours();
    for alias in [
        "green-red-run",
        "red-green-run",
        "red-blue-fly",
        "run-red-jump",
        "red-blue-red",
        "Red-blue-run",
        "red-blue-",
        "--",
    ] {
        assert_eq!(codec.alias_to_identifier(alias), None, "{:?}", alias);
    }
}

#[test]
fn identifier_beyond_the_tables_has_no_alias() {
    let codec = colours();
    assert_eq!(codec.identifier_to_alias(Identifier::new(2, 0, 0)), None);
    assert_eq!(codec.identifier_to_alias(Identifier::new(0, 2, 0)), None);
    assert_eq!(codec.identifier_to_alias(Identifier::new(0, 0, 2)), None);
    assert_eq!(codec.identifier_to_alias(Identifier::new(255, 255, 255)), None);
    assert_eq!(nurltowurl(&codec, "ffffff".to_string()), None);
}

#[test]
fn name_that_is_not_canonical_has_no_alias() {
    let codec = colours();
    for name in ["", "01000", "0100010", "01000g", "01000G", "0A0001", "+1+0+1", "ééé"] {
        assert_eq!(nurltowurl(&codec, name.to_string()), None, "{:?}", name);
    }
}

#[test]
fn empty_word_is_a_word_like_any_other() {
    let adjectives = WordTable::new(words(&["red", ""])).unwrap();
    let verbs = WordTable::new(words(&["", "run"])).unwrap();
    let codec = WordCodec::new(adjectives, verbs);
    assert_eq!(codec.alias_to_identifier("--"), Some(Identifier::new(1, 1, 0)));
    assert_eq!(
        codec.identifier_to_alias(Identifier::new(1, 0, 1)),
        Some("-red-run".to_string())
    );
    assert_eq!(codec.alias_to_identifier("-red-run"), Some(Identifier::new(1, 0, 1)));
}

#[test]
fn word_with_separator_encodes_and_does_not_decode() {
    let adjectives = WordTable::new(words(&["well-known"])).unwrap();
    let verbs = WordTable::new(words(&["run"])).unwrap();
    let codec = WordCodec::new(adjectives, verbs);
    let alias = codec.identifier_to_alias(Identifier::new(0, 0, 0)).unwrap();
    assert_eq!(alias, "well-known-well-known-run");
    assert_eq!(codec.alias_to_identifier(&alias), None);
}

#[test]
fn table_looks_up_both_ways() {
    let table = WordTable::new(words(&["red", "blue", "green"])).unwrap();
    assert_eq!(table.len(), 3);
    assert_eq!(table.lookup_index("red"), Some(0));
    assert_eq!(table.lookup_index("green"), Some(2));
    assert_eq!(table.lookup_index("Green"), None);
    assert_eq!(table.lookup_index(""), None);
    assert_eq!(table.lookup_word(1), Some("blue"));
    assert_eq!(table.lookup_word(3), None);
    assert_eq!(table.lookup_word(255), None);
}

#[test]
fn table_of_every_byte() {
    let list: Vec<String> = (0..256).map(|i| format!("w{}", i)).collect();
    let table = WordTable::new(list).unwrap();
    assert_eq!(table.len(), 256);
    assert_eq!(table.lookup_index("w255"), Some(255));
    assert_eq!(table.lookup_word(255), Some("w255"));
    assert_eq!(table.lookup_word(0), Some("w0"));
}

#[test]
fn table_refuses_too_many_words() {
    let list: Vec<String> = (0..257).map(|i| format!("w{}", i)).collect();
    assert_eq!(WordTable::new(list).err(), Some(TableError::TooManyWords));
    let repeated: Vec<String> = (0..300).map(|_| "same".to_string()).collect();
    assert_eq!(WordTable::new(repeated).err(), Some(TableError::TooManyWords));
}

#[test]
fn table_refuses_a_word_twice() {
    assert_eq!(
        WordTable::new(words(&["red", "blue", "red"])).err(),
        Some(TableError::DuplicateWord)
    );
    assert!(WordTable::new(words(&["red", "Red"])).is_ok());
}

#[test]
fn empty_table_holds_nothing() {
    let table = WordTable::new(Vec::new()).unwrap();
    assert_eq!(table.len(), 0);
    assert_eq!(table.lookup_index("red"), None);
    assert_eq!(table.lookup_word(0), None);
}

#[test]
fn table_from_lines_takes_each_line_as_a_word() {
    let table = WordTable::from_lines("red\nblue\ngreen").unwrap();
    assert_eq!(table.len(), 3);
    assert_eq!(table.lookup_index("blue"), Some(1));
    assert_eq!(table.lookup_word(2), Some("green"));
}

#[test]
fn table_from_lines_with_final_line_feed_ends_in_the_empty_word() {
    let table = WordTable::from_lines("red\nblue\n").unwrap();
    assert_eq!(table.len(), 3);
    assert_eq!(table.lookup_word(2), Some(""));
    assert_eq!(table.lookup_index(""), Some(2));
    assert_eq!(
        WordTable::from_lines("red\n\n").err(),
        Some(TableError::DuplicateWord)
    );
    let one = WordTable::from_lines("").unwrap();
    assert_eq!(one.len(), 1);
    assert_eq!(one.lookup_word(0), Some(""));
}
