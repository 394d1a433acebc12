use asom_index::metadata::parse_metadata;
use asom_index::records::{AttrValue, DatePair};
use asom_index::schema::{
    NumberSettings, Schema, SchemaAttrType, SchemaItem, TextCollectionSettings, TextSettings,
    DatesPairCollectionSettings,
};

const METADATA_CORRECT: &str = "title: some guy
year: 2024
myRating: 2.5
read:
  - started: s1
    finished: f1
  - started: s2
  - finished: f3
tags:
  - tag1
  - tag2
";

const METADATA_WRONG_TYPES_1: &str = "title: 2024
year: hello
myRating:
    - tag1
read: 444.444
tags:
  - started: s1
    finished: f1
  - started: s2
  - finished: f3
";

const METADATA_WRONG_TYPES_2: &str = "title: 2024
year: hello
myRating: 'pososi'
read: 444.444
tags: 555
";

fn schema_with_all_types() -> Schema {
    Schema {
        name: "test".to_owned(),
        version: "1".to_owned(),
        fill_api_search_from: None,
        fill_from_filename: None,
        items: vec![
            SchemaItem {
                name: "title".to_owned(),
                value: SchemaAttrType::Text(TextSettings::default()),
            },
            SchemaItem {
                name: "year".to_owned(),
                value: SchemaAttrType::Number(NumberSettings::default()),
            },
            SchemaItem {
                name: "myRating".to_owned(),
                value: SchemaAttrType::Number(NumberSettings {
                    decimal_places: Some(2),
                    ..NumberSettings::default()
                }),
            },
            SchemaItem {
                name: "read".to_owned(),
                value: SchemaAttrType::DatesPairCollection(DatesPairCollectionSettings::default()),
            },
            SchemaItem {
                name: "tags".to_owned(),
                value: SchemaAttrType::TextCollection(TextCollectionSettings {
                    prefix: Some("#".to_owned()),
                    ..TextCollectionSettings::default()
                }),
            },
        ],
    }
}

fn expect(
    result: &asom_index::metadata::MetaDataParseResult,
    key: &str,
    value: AttrValue,
) {
    assert_eq!(result.metadata.get(key), Some(&value), "attribute {}", key);
}

#[test]
fn all_correct() {
    let schema = schema_with_all_types();
    let all_correct = parse_metadata(METADATA_CORRECT, &schema);

    assert!(all_correct.parsing_error.is_none(), "All correct parse is ok");
    expect(&all_correct, "title", AttrValue::Str(Some("some guy".into())));
    expect(&all_correct, "year", AttrValue::Integer(Some("2024".into())));
    expect(&all_correct, "myRating", AttrValue::Float(Some("2.5".into())));
    expect(
        &all_correct,
        "read",
        AttrValue::DatePairVec(Some(vec![
            DatePair { started: Some("s1".into()), finished: Some("f1".into()) },
            DatePair { started: Some("s2".into()), finished: None },
            DatePair { started: None, finished: Some("f3".into()) },
        ])),
    );
    expect(
        &all_correct,
        "tags",
        AttrValue::StrVec(Some(vec!["tag1".into(), "tag2".into()])),
    );
}

#[test]
fn all_none() {
    let schema = schema_with_all_types();
    let all_none = parse_metadata("", &schema);

    assert!(all_none.parsing_error.is_none(), "All none parse is ok");
    expect(&all_none, "title", AttrValue::Str(None));
    expect(&all_none, "year", AttrValue::Integer(None));
    expect(&all_none, "myRating", AttrValue::Float(None));
    expect(&all_none, "read", AttrValue::DatePairVec(None));
    expect(&all_none, "tags", AttrValue::StrVec(None));
}

#[test]
fn wrong_types_() {
    let schema = schema_with_all_types();

    let first_wrong = parse_metadata(METADATA_WRONG_TYPES_1, &schema);
    assert!(first_wrong.parsing_error.is_none(), "First wrong parse is ok");
    expect(&first_wrong, "title", AttrValue::Str(None));
    expect(&first_wrong, "year", AttrValue::Integer(None));
    expect(&first_wrong, "myRating", AttrValue::Float(None));
    expect(&first_wrong, "read", AttrValue::DatePairVec(None));
    expect(&first_wrong, "tags", AttrValue::StrVec(None));

    let second_wrong = parse_metadata(METADATA_WRONG_TYPES_2, &schema);
    assert!(second_wrong.parsing_error.is_none(), "Second wrong parse is ok");
    expect(&second_wrong, "title", AttrValue::Str(None));
    expect(&second_wrong, "year", AttrValue::Integer(None));
    expect(&second_wrong, "myRating", AttrValue::Float(None));
    expect(&second_wrong, "read", AttrValue::DatePairVec(None));
    expect(&second_wrong, "tags", AttrValue::StrVec(None));
}

#[test]
fn empty_metadata() {
    let schema = schema_with_all_types();
    let empty = parse_metadata("", &schema);

    assert!(empty.parsing_error.is_none(), "Empty parse is ok");
    expect(&empty, "title", AttrValue::Str(None));
    expect(&empty, "year", AttrValue::Integer(None));
    expect(&empty, "myRating", AttrValue::Float(None));
    expect(&empty, "read", AttrValue::DatePairVec(None));
    expect(&empty, "tags", AttrValue::StrVec(None));
}

#[test]
fn broken_metadata() {
    let schema = schema_with_all_types();
    let broken = parse_metadata(
        "---asdiaskjdhqwejh 789123981 ;:jka >?>L?ASJdq hkajhsd ",
        &schema,
    );

    assert!(broken.parsing_error.is_some(), "Broken parse is ok");
    expect(&broken, "title", AttrValue::Str(None));
    expect(&broken, "year", AttrValue::Integer(None));
    expect(&broken, "myRating", AttrValue::Float(None));
    expect(&broken, "read", AttrValue::DatePairVec(None));
    expect(&broken, "tags", AttrValue::StrVec(None));
}

#[test]
fn non_mapping_document_is_a_parse_failure() {
    let schema = schema_with_all_types();
    let scalar = parse_metadata("42", &schema);
    assert!(scalar.parsing_error.is_some());
    expect(&scalar, "title", AttrValue::Str(None));
}

#[test]
fn schema_normalization_removes_empty_and_duplicate_fields() {
    let schema = Schema {
        name: "n".to_owned(),
        version: "1".to_owned(),
        fill_api_search_from: None,
        fill_from_filename: None,
        items: vec![
            SchemaItem {
                name: "title".to_owned(),
                value: SchemaAttrType::Text(TextSettings::default()),
            },
            SchemaItem {
                name: "".to_owned(),
                value: SchemaAttrType::Text(TextSettings::default()),
            },
            SchemaItem {
                name: "title".to_owned(),
                value: SchemaAttrType::Number(NumberSettings::default()),
            },
            SchemaItem {
                name: "year".to_owned(),
                value: SchemaAttrType::Number(NumberSettings::default()),
            },
        ],
    };
    let once = schema.remove_empty_and_duplicates();
    assert_eq!(once.items.len(), 2);
    assert_eq!(once.items[0].name, "title");
    assert!(matches!(once.items[0].value, SchemaAttrType::Text(_)));
    assert_eq!(once.items[1].name, "year");
    let twice = once.remove_empty_and_duplicates();
    assert_eq!(twice.items.len(), 2);
    assert_eq!(twice.items[0].name, "title");
    assert_eq!(twice.items[1].name, "year");
}
