use triple_triad::card::{stat_char, Card, CardDb, DataError, Element, LoadError, Stats};

#[test]
fn card_line_parses_every_field() {
    let card = Card::from_str("3,Geezard,1,4,1,5,None").unwrap();
    assert_eq!(card.level(), 3);
    assert_eq!(card.name(), "Geezard");
    assert_eq!(card.stats(), Stats { top: 1, rgt: 4, btm: 1, lft: 5 });
    assert_eq!(card.element(), Element::Neutral);
    let card = Card::from_str("+10,Ifrit,9,8,6,2,Fire,extra").unwrap();
    assert_eq!(card.level(), 10);
    assert_eq!(card.element(), Element::Fire);
}

#[test]
fn card_line_errors_name_the_first_bad_field() {
    assert_eq!(Card::from_str("x,A,1,1,1,1,None").unwrap_err(), DataError::InvalidLevel);
    assert_eq!(Card::from_str("256,A,1,1,1,1,None").unwrap_err(), DataError::InvalidLevel);
    assert_eq!(Card::from_str("").unwrap_err(), DataError::InvalidLevel);
    assert_eq!(Card::from_str("1").unwrap_err(), DataError::InvalidName);
    assert_eq!(Card::from_str("1,A").unwrap_err(), DataError::InvalidTopStat);
    assert_eq!(Card::from_str("1,A,-1,1,1,1,None").unwrap_err(), DataError::InvalidTopStat);
    assert_eq!(Card::from_str("1,A,1,q,1,1,None").unwrap_err(), DataError::InvalidRightStat);
    assert_eq!(Card::from_str("1,A,1,1,,1,None").unwrap_err(), DataError::InvalidBottomStat);
    assert_eq!(Card::from_str("1,A,1,1,1, 1,None").unwrap_err(), DataError::InvalidLeftStat);
    assert_eq!(Card::from_str("1,A,1,1,1,1").unwrap_err(), DataError::InvalidElement);
    assert_eq!(Card::from_str("1,A,1,1,1,1,Lava").unwrap_err(), DataError::InvalidElement);
}

#[test]
fn element_names_and_bytes() {
    let names = ["None", "Earth", "Fire", "Holy", "Ice", "Poison", "Thunder", "Water", "Wind"];
    for (i, n) in names.iter().enumerate() {
        let e = Element::from_str(n).unwrap();
        assert_eq!(e.to_byte(), i as u8);
        assert_eq!(Element::from_byte(i as u8), e);
    }
    assert_eq!(Element::from_byte(9), Element::Neutral);
    assert_eq!(Element::from_byte(255), Element::Neutral);
    assert_eq!(Element::from_str("wind"), Err(DataError::InvalidElement));
}

#[test]
fn record_bytes_pack_stats_and_name() {
    let card = Card::from_str("1,Bite Bug,1,3,3,5,Wind").unwrap();
    let mut out = vec![0xAA];
    card.write_bytes(&mut out);
    let mut expected = vec![0xAA, 0x13, 0x35, 8, 8];
    expected.extend_from_slice(b"Bite Bug");
    assert_eq!(out, expected);
}

#[test]
fn stats_unpack_nibbles() {
    assert_eq!(Stats::from_bytes(0xA3, 0x5F), Stats { top: 10, rgt: 3, btm: 5, lft: 15 });
}

#[test]
fn catalog_round_trip() {
    let mut bytes = Vec::new();
    Card::from_str("1,Geezard,1,4,1,5,None").unwrap().write_bytes(&mut bytes);
    Card::from_str("9,Quistis,9,6,10,2,Holy").unwrap().write_bytes(&mut bytes);
    bytes.extend_from_slice(&[1, 2, 3]);
    let db = CardDb::from_bytes(&bytes).unwrap();
    assert_eq!(db.names, vec!["Geezard".to_string(), "Quistis".to_string()]);
    assert_eq!(db.elements, vec![Element::Neutral, Element::Holy]);
    assert_eq!(db.stats[0], Stats { top: 1, rgt: 4, btm: 1, lft: 5 });
    assert_eq!(db.stats[1], Stats { top: 9, rgt: 6, btm: 10, lft: 2 });
    assert_eq!(CardDb::from_bytes(&[]).unwrap().stats.len(), 0);
}

#[test]
fn catalog_errors() {
    assert_eq!(CardDb::from_bytes(&[0x11, 0x11, 0, 5, b'a', b'b']).err(), Some(LoadError::TruncatedName));
    assert_eq!(CardDb::from_bytes(&[0x11, 0x11, 0, 1, 0xFF]).err(), Some(LoadError::InvalidName));
}

#[test]
fn stat_chars() {
    assert_eq!(stat_char(0), '0');
    assert_eq!(stat_char(9), '9');
    assert_eq!(stat_char(10), 'A');
}

#[test]
fn from_conversions_match_the_catalog_layout() {
    assert_eq!(Element::from(3u8), Element::Holy);
    assert_eq!(Element::from(200u8), Element::Neutral);
    assert_eq!(Stats::from([0x12, 0x34]), Stats { top: 1, rgt: 2, btm: 3, lft: 4 });
}
