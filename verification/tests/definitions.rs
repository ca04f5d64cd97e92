use mavlink_shouter::mavlink::definitions::msg_parser::{
    try_get_offsets_from_msg, MessageField, MessageFieldKind, MsgParseError,
};
use mavlink_shouter::mavlink::definitions::Offsets;
use quick_xml::reader::Reader;

fn reader_from_str(xml: &str) -> Reader<&[u8]> {
    let mut reader = Reader::from_str(xml);
    reader.trim_text(true);
    reader
}

#[test]
fn definitions_test_try_get_offsets_from_msg() {
    let mut reader = reader_from_str(
        r#"<message id="1">
            <field type="uint8_t" name="target_system">Target system ID</field>
            <field type="uint8_t" name="target_component">Target component ID</field>
            <field type="uint8_t" name="something_else">Something else</field>
        </message>"#,
    );

    let offsets = try_get_offsets_from_msg(&mut reader).unwrap();
    assert_eq!(offsets, Some(Offsets::new(0, Some(1))));
}

#[test]
fn definitions_test_try_get_offsets_from_msg_no_target() {
    let mut reader = reader_from_str(
        r#"<message id="1">
            <field type="uint8_t" name="something_else">Something else</field>
        </message>"#,
    );

    let offsets = try_get_offsets_from_msg(&mut reader).unwrap();
    assert_eq!(offsets, None);
}

#[test]
fn definitions_test_try_get_offsets_from_msg_no_component() {
    let mut reader = reader_from_str(
        r#"<message id="1">
            <field type="uint8_t" name="target_system">Target system ID</field>
            <field type="uint8_t" name="something_else">Something else</field>
        </message>"#,
    );

    let offsets = try_get_offsets_from_msg(&mut reader).unwrap();
    assert_eq!(offsets, Some(Offsets::new(0, None)));
}

#[test]
fn definitions_test_try_get_offsets_from_msg_with_extenstions() {
    let mut reader = reader_from_str(
        r#"<message id="1">
            <field type="uint8_t" name="target_system">Target system ID</field>
            <field type="uint8_t" name="target_component">Target component ID</field>
            <field type="uint8_t" name="something_else">Something else</field>
            <extensions/>
            <field type="uint8_t" name="extension1">Extension 1</field>
            <field type="uint8_t" name="extension2">Extension 2</field>
        </message>"#,
    );

    let offsets = try_get_offsets_from_msg(&mut reader).unwrap();
    assert_eq!(offsets, Some(Offsets::new(0, Some(1))));
}

#[test]
fn definitions_test_try_get_offsets_from_msg_not_first_element() {
    let mut reader = reader_from_str(
        r#"<message id="1">
            <field type="uint8_t" name="something_else">Something else</field>
            <field type="uint8_t" name="target_system">Target system ID</field>
            <field type="uint8_t" name="target_component">Target component ID</field>
        </message>"#,
    );

    let offsets = try_get_offsets_from_msg(&mut reader).unwrap();
    assert_eq!(offsets, Some(Offsets::new(1, Some(2))));
}

#[test]
fn definitions_test_try_get_offsets_from_msg_with_bigger_fields() {
    let mut reader = reader_from_str(
        r#"<message id="1">
            <field type="uint8_t" name="target_system">Target system ID</field>
            <field type="uint8_t" name="target_component">Target component ID</field>
            <field type="uint16_t" name="something_else">Something else</field>
        </message>"#,
    );

    let offsets = try_get_offsets_from_msg(&mut reader).unwrap();
    assert_eq!(offsets, Some(Offsets::new(2, Some(3))));
}

#[test]
fn definitions_test_try_get_offsets_from_msg_with_array() {
    let mut reader = reader_from_str(
        r#"<message id="1">
            <field type="uint8_t[3]" name="something">Something</field>
            <field type="uint8_t[2]" name="something1">Something 1</field>
            <field type="uint16_t" name="something_else">Something else</field>
            <field type="uint8_t" name="target_system">Target system ID</field>
            <field type="uint8_t" name="target_component">Target component ID</field>
        </message>"#,
    );

    let offsets = try_get_offsets_from_msg(&mut reader).unwrap();
    assert_eq!(offsets, Some(Offsets::new(7, Some(8))));
}

#[test]
fn definitions_test_try_get_offsets_from_msg_with_array_and_extensions() {
    let mut reader = reader_from_str(
        r#"<message id="1">
            <field type="uint8_t[3]" name="something">Something</field>
            <field type="uint8_t[2]" name="something1">Something 1</field>
            <field type="uint16_t" name="something_else">Something else</field>
            <field type="uint8_t" name="target_system">Target system ID</field>
            <field type="uint8_t" name="target_component">Target component ID</field>
            <extensions/>
            <field type="uint16_t" name="extension1">Extension 1</field>
            <field type="uint16_t" name="extension2">Extension 2</field>
        </message>"#,
    );

    let offsets = try_get_offsets_from_msg(&mut reader).unwrap();
    assert_eq!(offsets, Some(Offsets::new(7, Some(8))));
}

#[test]
fn definitions_test_try_get_offsets_from_msg_with_field_without_name() {
    let mut reader = reader_from_str(
        r#"<message id="1">
            <field type="uint8_t" name="target_system">Target system ID</field>
            <field type="uint8_t">Target component ID</field>
        </message>"#,
    );

    let offsets = try_get_offsets_from_msg(&mut reader);
    assert!(matches!(offsets, Err(MsgParseError::FieldWithoutName)));

}

#[test]
fn definitions_test_try_get_offsets_from_msg_with_field_without_type() {
    let mut reader = reader_from_str(
        r#"<message id="1">
            <field type="uint8_t" name="target_system">Target system ID</field>
            <field name="target_component">Target component ID</field>
        </message>"#,
    );

    let offsets = try_get_offsets_from_msg(&mut reader);
    assert!(matches!(offsets, Err(MsgParseError::FieldWithoutType)));

}

#[test]
fn definitions_test_message_field_kind_from_str_with_malformed_array_size() {
    let kind_str = "uint8_t[";
    let kind = MessageFieldKind::from_str(kind_str);

    assert!(matches!(kind, Err(MsgParseError::MalformedArraySize)));

}

#[test]
fn definitions_test_message_field_kind_from_str_with_zero_array_size() {
    let kind_str = "uint8_t[0]";
    let kind = MessageFieldKind::from_str(kind_str);

    assert!(matches!(kind, Err(MsgParseError::ZeroArraySize)));

}

#[test]
fn definitions_test_message_field_kind_from_str_with_unknown_type() {
    let kind_str = "uint8";
    let kind = MessageFieldKind::from_str(kind_str);

    assert!(matches!(kind, Err(MsgParseError::UnknownType(type_str)) if type_str == "uint8"));

}

#[test]
fn definitions_test_message_field_kind_from_str_with_unparsable_array_size() {
    let kind_str = "uint8_t[abc]";
    let kind = MessageFieldKind::from_str(kind_str);

    assert!(matches!(kind, Err(MsgParseError::FailedToParseArraySize(type_str)) if type_str == "uint8_t[abc]"));

}

#[test]
fn definitions_test_message_field_kind_from_str() {
    let kind_str = "uint8_t[3]";
    let (kind, multiplicity) = MessageFieldKind::from_str(kind_str).unwrap();

    assert_eq!(kind, MessageFieldKind::U8);
    assert_eq!(multiplicity, 3);
}

#[test]
fn definitions_test_message_field_size() {
    let field = MessageField {
        name: "something".to_string(),
        kind: MessageFieldKind::U16,
        multiplicity: 3,
    };

    assert_eq!(field.size(), 6);

}

#[test]
fn definitions_test_try_get_offsets_from_msg_target_field_not_u8() {
    let mut reader = reader_from_str(
        r#"<message id="1">
            <field type="uint8_t" name="target_system">Target system ID</field>
            <field type="uint16_t" name="target_component">Target component ID</field>
        </message>"#,
    );

    let offsets = try_get_offsets_from_msg(&mut reader);
    assert!(matches!(offsets, Err(MsgParseError::TargetFieldNotU8)));

}

#[test]
fn definitions_test_try_get_offsets_from_msg_no_target_system() {
    let mut reader = reader_from_str(
        r#"<message id="1">
            <field type="uint8_t" name="target_component">Target component ID</field>
            <field type="uint8_t" name="something_else">Something else</field>
        </message>"#,
    );

    let offsets = try_get_offsets_from_msg(&mut reader);
    assert!(matches!(offsets, Err(MsgParseError::MissingTargetSystem)));

}

#[test]
fn definitions_test_try_get_offsets_from_msg_multiple_extensions() {
    let mut reader = reader_from_str(
        r#"<message id="1">
            <field type="uint8_t" name="target_system">Target system ID</field>
            <field type="uint8_t" name="target_component">Target component ID</field>
            <field type="uint8_t" name="something_else">Something else</field>
            <extensions/>
            <field type="uint8_t" name="extension1">Extension 1</field>
            <extensions/>
            <field type="uint8_t" name="extension2">Extension 2</field>
        </message>"#,
    );

    let offsets = try_get_offsets_from_msg(&mut reader);
    assert!(matches!(offsets, Err(MsgParseError::MultipleExtensionsFields)));

}

#[test]
fn definitions_test_try_get_offsets_from_msg_target_field_not_single_value() {
    let mut reader = reader_from_str(
        r#"<message id="1">
            <field type="uint8_t[2]" name="target_system">Target system ID</field>
            <field type="uint8_t" name="target_component">Target component ID</field>
        </message>"#,
    );

    let offsets = try_get_offsets_from_msg(&mut reader);
    assert!(matches!(offsets, Err(MsgParseError::TargetFieldNotSingleValue)));

}

#[test]
fn definitions_test_try_get_offsets_from_msg_unexpected_eof() {
    let mut reader = reader_from_str(
        r#"<message id="1">
            <field type="uint8_t" name="target_system">Target system ID</field>
            <field type="uint8_t" name="target_component">Target component ID</field>"#,
    );

    let offsets = try_get_offsets_from_msg(&mut reader);
    assert!(matches!(offsets, Err(MsgParseError::UnexpectedEof)));

}
