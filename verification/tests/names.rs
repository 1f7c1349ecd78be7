//! Domain names and character-strings: construction from dotted text,
//! wire parsing, encoding, bounds, and pointer expansion.
use dns_codec::label::{
    expand_label, parse_character_string, parse_label, CharacterString, Label, LabelError,
};

fn seg(text: &str) -> CharacterString {
    CharacterString(text.as_bytes().to_vec())
}

#[test]
fn parse_str_splits_on_dots() {
    assert_eq!(
        Label::parse_str("example.com").unwrap(),
        Label::Sequence(vec![seg("example"), seg("com")])
    );
    assert_eq!(Label::parse_str("a").unwrap(), Label::Sequence(vec![seg("a")]));
}

#[test]
fn parse_str_rejects_empty_segments() {
    assert_eq!(Label::parse_str(""), Err(LabelError::IncompleteBuffer));
    assert_eq!(Label::parse_str("a..b"), Err(LabelError::IncompleteBuffer));
    assert_eq!(Label::parse_str(".a"), Err(LabelError::IncompleteBuffer));
    assert_eq!(Label::parse_str("a."), Err(LabelError::IncompleteBuffer));
}

#[test]
fn construction_accepts_255_and_rejects_256() {
    let fine = vec![b'x'; 255];
    assert_eq!(
        Label::parse(&fine).unwrap(),
        Label::Sequence(vec![CharacterString(fine.clone())])
    );
    let long = vec![b'x'; 256];
    assert_eq!(Label::parse(&long), Err(LabelError::MaxSizeReached(256)));
}

#[test]
fn character_string_of_255_bytes_round_trips() {
    let content = vec![7u8; 255];
    let cs = CharacterString(content.clone());
    let bytes = cs.encode().unwrap();
    assert_eq!(bytes.len(), 256);
    assert_eq!(bytes[0], 255);
    let (back, used) = parse_character_string(&bytes).unwrap();
    assert_eq!(back, cs);
    assert_eq!(used, 256);
}

#[test]
fn character_string_of_256_bytes_will_not_encode() {
    let cs = CharacterString(vec![7u8; 256]);
    assert_eq!(cs.encode(), Err(LabelError::MaxSizeReached(256)));
}

#[test]
fn parse_label_reads_literals_to_the_root() {
    assert_eq!(
        parse_label(&[2, b'a', b'b', 0]).unwrap(),
        (Label::Sequence(vec![seg("ab")]), 4)
    );
    assert_eq!(parse_label(&[0]).unwrap(), (Label::Sequence(vec![]), 1));
    // Bytes after the terminator are left alone.
    assert_eq!(
        parse_label(&[1, b'a', 0, 9, 9]).unwrap(),
        (Label::Sequence(vec![seg("a")]), 3)
    );
}

#[test]
fn parse_label_stops_at_a_pointer() {
    assert_eq!(
        parse_label(&[0xC0, 12]).unwrap(),
        (Label::Compressed(vec![], 12), 2)
    );
    assert_eq!(
        parse_label(&[1, b'a', 0xC0, 5]).unwrap(),
        (Label::Compressed(vec![seg("a")], 5), 4)
    );
    // The fourteen offset bits span both bytes.
    assert_eq!(
        parse_label(&[0xC3, 5]).unwrap(),
        (Label::Compressed(vec![], 0x305), 2)
    );
}

#[test]
fn parse_label_names_each_failure() {
    assert_eq!(parse_label(&[]), Err(LabelError::IncompleteBuffer));
    assert_eq!(parse_label(&[1, b'a']), Err(LabelError::IncompleteBuffer));
    assert_eq!(parse_label(&[0xC0]), Err(LabelError::IncompleteBuffer));
    assert_eq!(parse_label(&[3, b'a']), Err(LabelError::FalseEncodedLength(3)));
}

#[test]
fn label_encoding_round_trips() {
    let l = Label::Sequence(vec![seg("ab"), seg("c")]);
    let bytes = l.encode().unwrap();
    assert_eq!(bytes, vec![2, b'a', b'b', 1, b'c', 0]);
    assert_eq!(parse_label(&bytes).unwrap(), (l, 6));

    let c = Label::Compressed(vec![seg("a")], 0x305);
    let bytes = c.encode().unwrap();
    assert_eq!(bytes, vec![1, b'a', 0xC3, 5]);
    assert_eq!(parse_label(&bytes).unwrap(), (c, 4));
}

#[test]
fn label_encoding_rejects_oversized_content() {
    let l = Label::Sequence(vec![CharacterString(vec![b'x'; 300])]);
    assert_eq!(l.encode(), Err(LabelError::MaxSizeReached(300)));
}

#[test]
fn expand_splices_the_target_labels_in() {
    // "ab" lies at offset 2 of the buffer.
    let buf = [9u8, 9, 2, b'a', b'b', 0, 7, 7];
    let expanded = expand_label(Label::Compressed(vec![], 2), &buf, 6).unwrap();
    assert_eq!(expanded, Label::Sequence(vec![seg("ab")]));
    // Labels before the pointer stay in front of the spliced ones.
    let expanded = expand_label(Label::Compressed(vec![seg("www")], 2), &buf, 6).unwrap();
    assert_eq!(expanded, Label::Sequence(vec![seg("www"), seg("ab")]));
    // A name without a pointer is already expanded.
    let plain = Label::Sequence(vec![seg("ab")]);
    assert_eq!(expand_label(plain.clone(), &buf, 6).unwrap(), plain);
}

#[test]
fn expand_follows_chains_strictly_backwards() {
    // At offset 4: "b" then a pointer back to offset 0, where "a" ends in
    // the root label.
    let buf = [1u8, b'a', 0, 9, 1, b'b', 0xC0, 0];
    let expanded = expand_label(Label::Compressed(vec![], 4), &buf, 8).unwrap();
    assert_eq!(expanded, Label::Sequence(vec![seg("b"), seg("a")]));
}

#[test]
fn expand_rejects_forward_and_circular_pointers() {
    // A pointer at or past the name's own start would not lead backwards.
    let buf = [1u8, b'a', 0, 0xC0, 0];
    assert_eq!(
        expand_label(Label::Compressed(vec![], 5), &buf, 3),
        Err(LabelError::InvalidPointer(5))
    );
    // A pointer to a pointer to itself is caught when the chain stops
    // going strictly backwards.
    let cycle = [0xC0u8, 0, 9];
    assert_eq!(
        expand_label(Label::Compressed(vec![], 0), &cycle, 3),
        Err(LabelError::InvalidPointer(0))
    );
    // A pointer past the buffer cannot be followed.
    assert_eq!(
        expand_label(Label::Compressed(vec![], 200), &buf, 1000),
        Err(LabelError::InvalidPointer(200))
    );
}
