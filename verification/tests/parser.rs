use mavlink_shouter::mavlink::definitions::msg_parser::MsgParseError;
use mavlink_shouter::mavlink::definitions::parser::{ParseError, Parser};
use mavlink_shouter::mavlink::definitions::{try_get_offsets_from_xml, Offsets};
use quick_xml::reader::Reader;
use std::collections::HashMap;

fn reader_of(content: &str) -> Reader<&[u8]> {
    let mut reader = Reader::from_str(content);
    reader.trim_text(true);
    reader
}

#[test]
fn test_parse_content() {
    let content = r#"
            <mavlink>
                <message id="1" name="msg1">
                    <field type="uint8_t" name="something_else">Something else</field>
                    <field type="uint8_t" name="target_system">Target system ID</field>
                    <field type="uint8_t" name="target_component">Target component ID</field>
                </message>
                <message id="2" name="msg2">
                    <field type="uint8_t" name="target_system">Target system ID</field>
                    <field type="uint8_t" name="something_else">Something else</field>
                </message>
            </mavlink>
        "#;
    let mut parser = Parser::new();
    let paused = parser.parse_content(&mut reader_of(content)).unwrap();
    assert_eq!(paused, None);

    let mut expected = HashMap::new();
    expected.insert(1, Offsets::new(1, Some(2)));
    expected.insert(2, Offsets::new(0, None));

    assert_eq!(parser.targeted_messages.len(), 2);
    for msg in &parser.targeted_messages {
        assert_eq!(msg.offsets, expected[&msg.id]);
    }
}

#[test]
fn test_parse_content_no_msg_id() {
    let content = r#"
            <mavlink>
                <message name="msg1">
                    <field type="uint8_t" name="target_system">Target system ID</field>
                    <field type="uint8_t" name="target_component">Target component ID</field>
                </message>
            </mavlink>
        "#;
    let mut parser = Parser::new();
    let result = parser.parse_content(&mut reader_of(content));
    assert!(matches!(result, Err(ParseError::MessageWithoutId)));
}

#[test]
fn test_parse_content_invalid_msg_id() {
    let content = r#"
            <mavlink>
                <message id="invalid" name="msg1">
                    <field type="uint8_t" name="target_system">Target system ID</field>
                    <field type="uint8_t" name="target_component">Target component ID</field>
                </message>
            </mavlink>
        "#;
    let mut parser = Parser::new();
    let result = parser.parse_content(&mut reader_of(content));
    assert!(matches!(result, Err(ParseError::InvalidMessageId(_))));
}

#[test]
fn test_parse_content_missing_equals() {
    let content = r#"
            <mavlink>
                <message id"1" name="msg1">
                    <field type="uint8_t" name="target_system">Target system ID</field>
                    <field type="uint8_t" name="target_component">Target component ID</field>
                </message>
            </mavlink>
        "#;
    let mut parser = Parser::new();
    let result = parser.parse_content(&mut reader_of(content));
    assert!(matches!(result, Err(ParseError::QuickXml(_))));
}

#[test]
fn parse_content_pauses_at_include_and_resumes() {
    let content = r#"<mavlink>
            <message id="7"><field type="uint8_t" name="target_system">t</field></message>
            <include>common.xml</include>
            <message id="8"><field type="uint16_t" name="x">x</field>
                <field type="uint8_t" name="target_system">t</field></message>
        </mavlink>"#;
    let mut reader = reader_of(content);
    let mut parser = Parser::new();
    let paused = parser.parse_content(&mut reader).unwrap();
    assert_eq!(paused, Some("common.xml".to_string()));
    assert_eq!(parser.targeted_messages.len(), 1);
    assert_eq!(parser.targeted_messages[0].id, 7);
    let paused = parser.parse_content(&mut reader).unwrap();
    assert_eq!(paused, None);
    assert_eq!(parser.targeted_messages.len(), 2);
    assert_eq!(parser.targeted_messages[1].id, 8);
    assert_eq!(parser.targeted_messages[1].offsets, Offsets::new(2, None));
}

#[test]
fn parse_content_skips_untargeted_messages_and_wraps_message_errors() {
    let content = r#"<mavlink>
            <message id="1"><field type="uint8_t" name="a">a</field></message>
            <message id="2"><field type="uint8" name="a">a</field></message>
        </mavlink>"#;
    let mut parser = Parser::new();
    let result = parser.parse_content(&mut reader_of(content));
    assert!(matches!(
        result,
        Err(ParseError::MessageParser(MsgParseError::UnknownType(t))) if t == "uint8"
    ));
    assert_eq!(parser.targeted_messages.len(), 0);
}

#[test]
fn message_id_accepts_what_a_u32_parse_accepts() {
    let ok = r#"<mavlink><message id="+4294967295"><field type="uint8_t" name="target_system">t</field></message></mavlink>"#;
    let mut parser = Parser::new();
    parser.parse_content(&mut reader_of(ok)).unwrap();
    assert_eq!(parser.targeted_messages[0].id, 4294967295);
    for bad in ["4294967296", "", "+", "-1", " 1", "1 ", "0x10"] {
        let content = format!(
            r#"<mavlink><message id="{}"><field type="uint8_t" name="target_system">t</field></message></mavlink>"#,
            bad
        );
        let mut parser = Parser::new();
        let result = parser.parse_content(&mut reader_of(&content));
        assert!(matches!(result, Err(ParseError::InvalidMessageId(t)) if t == bad));
    }
}

#[test]
fn begin_file_skips_visited_and_rejects_missing_files() {
    let mut parser = Parser::new();
    assert!(!parser.is_visited("a.xml"));
    assert!(matches!(
        parser.begin_file("a.xml", false, false),
        Err(ParseError::FileDoesNotExist(p)) if p == "a.xml"
    ));
    assert!(matches!(
        parser.begin_file("a.xml", true, false),
        Err(ParseError::NotAFile(p)) if p == "a.xml"
    ));
    assert!(!parser.is_visited("a.xml"));
    assert_eq!(parser.begin_file("a.xml", true, true).unwrap(), true);
    assert!(parser.is_visited("a.xml"));
    // A file begun before is skipped without a look at the file system.
    assert_eq!(parser.begin_file("a.xml", false, false).unwrap(), false);
    assert_eq!(parser.begin_file("b.xml", true, true).unwrap(), true);
}

#[test]
fn duplicate_ids_fail_the_load() {
    let first = r#"<mavlink><message id="1"><field type="uint8_t" name="target_system">t</field></message></mavlink>"#;
    let second = r#"<mavlink><message id="1"><field type="uint8_t" name="x">x</field><field type="uint8_t" name="target_system">t</field></message></mavlink>"#;
    let mut parser = Parser::new();
    parser.parse_content(&mut reader_of(first)).unwrap();
    parser.parse_content(&mut reader_of(second)).unwrap();
    let result = try_get_offsets_from_xml(parser);
    assert!(matches!(result, Err(ParseError::MultipleMessagesWithSameId)));
}

#[test]
fn unique_ids_give_the_table() {
    let content = r#"<mavlink>
            <message id="1"><field type="uint8_t" name="target_system">t</field></message>
            <message id="300"><field type="uint32_t" name="x">x</field>
                <field type="uint8_t" name="target_component">c</field>
                <field type="uint8_t" name="target_system">t</field></message>
            <message id="5"><field type="float" name="x">x</field></message>
        </mavlink>"#;
    let mut parser = Parser::new();
    parser.parse_content(&mut reader_of(content)).unwrap();
    let table = try_get_offsets_from_xml(parser).unwrap();
    assert_eq!(table.len(), 2);
    assert_eq!(table[&1], Offsets::new(0, None));
    assert_eq!(table[&300], Offsets::new(5, Some(4)));
    assert!(!table.contains_key(&5));
}

#[test]
fn include_reads_to_its_own_closing_tag() {
    let content = r#"<mavlink><include>a<include>b</include>c</include>
            <message id="3"><field type="uint8_t" name="target_system">t</field></message>
        </mavlink>"#;
    let mut reader = reader_of(content);
    let mut parser = Parser::new();
    let paused = parser.parse_content(&mut reader).unwrap();
    assert_eq!(paused, Some("a<include>b</include>c".to_string()));
    assert_eq!(parser.parse_content(&mut reader).unwrap(), None);
    assert_eq!(parser.targeted_messages.len(), 1);
    assert_eq!(parser.targeted_messages[0].id, 3);
}

#[test]
fn include_without_closing_tag_fails() {
    let content = r#"<mavlink><include>common.xml"#;
    let mut parser = Parser::new();
    let result = parser.parse_content(&mut reader_of(content));
    assert!(matches!(result, Err(ParseError::QuickXml(_))));
}

#[test]
fn self_closing_message_and_include_tags_are_passed_over() {
    let content = r#"<mavlink><include/><message id="1"/>
            <message id="2"><field type="uint8_t" name="target_system">t</field></message>
        </mavlink>"#;
    let mut parser = Parser::new();
    assert_eq!(parser.parse_content(&mut reader_of(content)).unwrap(), None);
    assert_eq!(parser.targeted_messages.len(), 1);
    assert_eq!(parser.targeted_messages[0].id, 2);
}

#[test]
fn include_whose_text_is_no_utf8_fails() {
    let content: &[u8] = b"<mavlink><include>\xFF</include></mavlink>";
    let mut reader = Reader::from_reader(content);
    reader.trim_text(true);
    let mut parser = Parser::new();
    let result = parser.parse_content(&mut reader);
    assert!(matches!(result, Err(ParseError::QuickXml(_))));
}

#[test]
fn include_text_is_raw_input() {
    // Escape sequences and markup stay as they are written.
    let content = "<mavlink><include>  dir/a&amp;b.xml <!-- c --></include></mavlink>";
    let mut reader = reader_of(content);
    let mut parser = Parser::new();
    let paused = parser.parse_content(&mut reader).unwrap();
    assert_eq!(paused, Some("  dir/a&amp;b.xml <!-- c -->".to_string()));
    assert_eq!(parser.parse_content(&mut reader).unwrap(), None);
}
