use sora::{BorrowedSourceMap, ParseError, Position, SourceInfo, SourceMap, ValidateError};

#[test]
fn test_parse_rejects_bad_documents() {
    assert!(matches!(
        SourceMap::from(b"".to_vec()),
        Err(ParseError::Syntax(..))
    ));
    assert!(matches!(
        SourceMap::from(b"{}".to_vec()),
        Err(ParseError::UnsupportedFormat)
    ));
    assert!(matches!(
        SourceMap::from(br#"{"version":2}"#.to_vec()),
        Err(ParseError::UnsupportedFormat)
    ));
}

#[test]
fn test_parse_minimal_document() {
    let mut buf = br#"{"version": 3}"#.to_vec();
    let sm = BorrowedSourceMap::from_slice(&mut buf).unwrap();
    assert_eq!(sm.mappings().len(), 0);
    assert!(sm.find_mapping(Position::new(1, 2)).is_none());
}

#[test]
fn test_parse_single_mapping() {
    // the "AACE" scenario: one mapping at generated (0,0), source id 0,
    // source line 1, source column 2; re-encoding reproduces "AACE"
    let mut buf = br#"{"version":3,"sources":["a.js"],"mappings":"AACE"}"#.to_vec();
    let sm = BorrowedSourceMap::from_slice(&mut buf).unwrap();
    assert_eq!(sm.mappings().len(), 1);
    let m = *sm.mappings().get(0);
    assert_eq!(m.generated(), Position::new(0, 0));
    assert!(m.has_source());
    assert_eq!(m.source_info(), Some(SourceInfo::new(0, Position::new(1, 2))));
    assert!(!m.has_name());
    assert_eq!(
        String::from_utf8(sm.to_vec()).unwrap(),
        r#"{"version":3,"sources":["a.js"],"sourcesContent":[null],"mappings":"AACE"}"#
    );
}

#[test]
fn test_parse_empty_groups_are_legal() {
    // generated lines without mappings are empty groups, not errors
    let mut buf = br#"{"version":3,"mappings":";;"}"#.to_vec();
    let sm = BorrowedSourceMap::from_slice(&mut buf).unwrap();
    assert_eq!(sm.mappings().len(), 0);
}

#[test]
fn test_parse_trailing_line_mapping() {
    // the last generated line has no mappings of its own, so a synthetic
    // mapping at its column 0 closes the table
    let mut buf = br#"{"version":3,"mappings":"A;;"}"#.to_vec();
    let sm = BorrowedSourceMap::from_slice(&mut buf).unwrap();
    assert_eq!(sm.mappings().len(), 2);
    assert_eq!(sm.mappings().get(0).generated(), Position::new(0, 0));
    assert_eq!(sm.mappings().get(1).generated(), Position::new(2, 0));
}

#[test]
fn test_parse_unknown_source_reference() {
    // a mapping referencing source id 0 while there are no sources
    let err = SourceMap::from(br#"{"version":3,"mappings":"AACE"}"#.to_vec());
    assert!(matches!(err, Err(ParseError::UnknownSourceReference(0))));
}

#[test]
fn test_parse_unknown_name_reference() {
    let err = SourceMap::from(br#"{"version":3,"sources":["a.js"],"mappings":"AAAAA"}"#.to_vec());
    assert!(matches!(err, Err(ParseError::UnknownNameReference(0))));
}

#[test]
fn test_parse_unordered_mappings() {
    // "E,D": the second segment moves the generated column backwards
    let err = SourceMap::from(br#"{"version":3,"mappings":"E,D"}"#.to_vec());
    assert!(matches!(err, Err(ParseError::MappingsUnordered)));
}

#[test]
fn test_parse_malformed_segment() {
    let err = SourceMap::from(br#"{"version":3,"mappings":"AA"}"#.to_vec());
    assert!(matches!(err, Err(ParseError::MappingMalformed(s)) if s == "AA"));
    let err = SourceMap::from(br#"{"version":3,"mappings":"!"}"#.to_vec());
    assert!(matches!(err, Err(ParseError::MappingMalformed(s)) if s == "!"));
}

#[test]
fn test_parse_sources_content_mismatch() {
    let err = SourceMap::from(
        br#"{"version":3,"sources":["a.js"],"sourcesContent":[null,null],"mappings":""}"#.to_vec(),
    );
    assert!(matches!(
        err,
        Err(ParseError::MismatchSourcesContent { sources_len: 1, sources_content_len: 2 })
    ));
}

#[test]
fn test_parse_source_root_joining() {
    // relative paths are joined onto the root (trailing slashes trimmed);
    // empty, absolute and http(s) paths stand alone
    let mut buf = br#"{"version":3,"sourceRoot":"/root//","sources":["a.js","/abs.js","http://h/x","https://h/y",""],"mappings":""}"#.to_vec();
    let sm = BorrowedSourceMap::from_slice(&mut buf).unwrap();
    let sources = sm.sources();
    assert_eq!(sources[0], Some("/root/a.js".to_string()));
    assert_eq!(sources[1], Some("/abs.js".to_string()));
    assert_eq!(sources[2], Some("http://h/x".to_string()));
    assert_eq!(sources[3], Some("https://h/y".to_string()));
    assert_eq!(sources[4], Some("".to_string()));
    assert_eq!(sm.source_root(), &Some("/root//".to_string()));
    assert_eq!(sm.sources_content().len(), 5);
}

#[test]
fn test_parse_null_source_names() {
    let mut buf = br#"{"version":3,"sources":[null,"b.js"],"mappings":""}"#.to_vec();
    let sm = BorrowedSourceMap::from_slice(&mut buf).unwrap();
    assert_eq!(sm.sources()[0], None);
    assert_eq!(sm.sources()[1], Some("b.js".to_string()));
}

#[test]
fn test_parse_ignore_list_round_trip() {
    let text = r#"{"version":3,"sources":["a.js"],"sourcesContent":[null],"mappings":"AACE","ignoreList":[0]}"#;
    let mut buf = text.as_bytes().to_vec();
    let sm = BorrowedSourceMap::from_slice(&mut buf).unwrap();
    assert_eq!(sm.ignore_list(), &vec![0u32]);
    assert_eq!(String::from_utf8(sm.to_vec()).unwrap(), text);
}

#[test]
fn test_validate_after_direct_mutation() {
    let mut buf = br#"{"version":3,"sources":["a.js"],"mappings":"AACE"}"#.to_vec();
    let mut sm = BorrowedSourceMap::from_slice(&mut buf).unwrap();
    assert!(sm.validate().is_ok());
    // breaking the length invariant through the direct accessor is caught
    sm.sources_content_mut2().push(None);
    assert!(matches!(
        sm.validate(),
        Err(ValidateError::MismatchSourcesContent { sources_len: 1, sources_content_len: 2 })
    ));
    sm.sources_mut2().push(None);
    assert!(sm.validate().is_ok());
    // dropping the referenced source is caught too
    sm.names_mut2().clear();
    sm.sources_mut2().clear();
    sm.sources_content_mut2().clear();
    assert!(matches!(
        sm.validate(),
        Err(ValidateError::UnknownSourceReference(0))
    ));
}

#[test]
fn test_parse_index_map_flattening() {
    // two sections; the second section's source and name ids are shifted by
    // the first section's totals
    let mut buf = br#"{"version":3,"sections":[{"offset":{"line":0,"column":0},"map":{"sources":["a.js"],"names":["x"],"mappings":"AAAAA"}},{"offset":{"line":0,"column":16},"map":{"sources":["b.js"],"names":["y"],"mappings":"AAAAA"}}]}"#.to_vec();
    let sm = BorrowedSourceMap::from_slice(&mut buf).unwrap();
    assert_eq!(sm.sources().len(), 2);
    assert_eq!(sm.sources()[0], Some("a.js".to_string()));
    assert_eq!(sm.sources()[1], Some("b.js".to_string()));
    assert_eq!(sm.names().len(), 2);
    assert_eq!(sm.mappings().len(), 2);
    let m0 = *sm.mappings().get(0);
    assert_eq!(m0.generated(), Position::new(0, 0));
    assert_eq!(m0.source_info().unwrap().id, 0);
    assert_eq!(m0.name_info(), Some(0));
    let m1 = *sm.mappings().get(1);
    assert_eq!(m1.generated(), Position::new(0, 16));
    assert_eq!(m1.source_info().unwrap().id, 1);
    assert_eq!(m1.name_info(), Some(1));
}

#[test]
fn test_parse_index_map_rejects_unordered_sections() {
    let mut buf = br#"{"version":3,"sections":[{"offset":{"line":0,"column":16},"map":{"sources":["b.js"],"mappings":"AAAA"}},{"offset":{"line":0,"column":0},"map":{"sources":["a.js"],"mappings":"AAAA"}}]}"#.to_vec();
    let err = BorrowedSourceMap::from_slice(&mut buf);
    match err {
        Err(ParseError::Section(index, inner)) => {
            assert_eq!(index, 1);
            assert!(matches!(*inner, ParseError::MappingsUnordered));
        }
        other => panic!("expected a section ordering error, got {:?}", other),
    }
}

#[test]
fn test_parse_index_map_sectionless_map() {
    // a section without a nested map contributes nothing but its offset
    let mut buf = br#"{"version":3,"sections":[{"offset":{"line":0,"column":0}},{"offset":{"line":1,"column":0},"map":{"sources":["a.js"],"mappings":"AAAA"}}]}"#.to_vec();
    let sm = BorrowedSourceMap::from_slice(&mut buf).unwrap();
    assert_eq!(sm.mappings().len(), 1);
    assert_eq!(sm.mappings().get(0).generated(), Position::new(1, 0));
}

#[test]
fn test_safe_mut_accessors() {
    let mut buf = br#"{"version":3,"sources":["a.js"],"mappings":"AACE"}"#.to_vec();
    let mut sm = BorrowedSourceMap::from_slice(&mut buf).unwrap();
    sm.sources_mut()[0] = Some("b.js".to_string());
    *sm.file_mut() = Some("out.js".to_string());
    assert_eq!(sm.sources()[0], Some("b.js".to_string()));
    assert_eq!(sm.file(), &Some("out.js".to_string()));
    assert!(sm.validate().is_ok());
}

#[test]
fn test_from_str_parses() {
    let sm = BorrowedSourceMap::from_str(r#"{"version":3,"mappings":""}"#).unwrap();
    assert_eq!(sm.mappings().len(), 0);
}

#[test]
fn test_serialize_round_trip() {
    // parse, serialize, parse again: a fixed point after one round
    let text = r#"{"version":3,"file":"min.js","sources":["a.js","b.js"],"sourcesContent":[null,"var b;"],"names":["x","y"],"mappings":"AAAAA,IACEC;;QCAAA"}"#;
    let mut buf = text.as_bytes().to_vec();
    let sm = BorrowedSourceMap::from_slice(&mut buf).unwrap();
    let once = sm.to_vec();
    let mut buf2 = once.clone();
    let sm2 = BorrowedSourceMap::from_slice(&mut buf2).unwrap();
    assert_eq!(sm2.to_vec(), once);
    assert_eq!(sm.mappings().len(), sm2.mappings().len());
    assert_eq!(String::from_utf8(once).unwrap(), text);
}

#[test]
fn test_serialize_escapes_strings() {
    let mut buf = br#"{"version":3,"sources":["a\"b.js"],"mappings":""}"#.to_vec();
    let sm = BorrowedSourceMap::from_slice(&mut buf).unwrap();
    assert_eq!(sm.sources()[0], Some("a\"b.js".to_string()));
    let out = String::from_utf8(sm.to_vec()).unwrap();
    assert_eq!(
        out,
        r#"{"version":3,"sources":["a\"b.js"],"sourcesContent":[null],"mappings":""}"#
    );
}

#[test]
fn test_parse_index_map_equal_offset_allowed() {
    // a section may start exactly where the previous one ended; only a
    // decrease is an ordering error
    let mut buf = br#"{"version":3,"sections":[{"offset":{"line":0,"column":0},"map":{"sources":["a.js"],"mappings":"AAAA"}},{"offset":{"line":0,"column":0},"map":{"sources":["b.js"],"mappings":"AAAA"}}]}"#.to_vec();
    let sm = BorrowedSourceMap::from_slice(&mut buf).unwrap();
    assert_eq!(sm.mappings().len(), 2);
    assert_eq!(sm.mappings().get(0).generated(), Position::new(0, 0));
    assert_eq!(sm.mappings().get(1).generated(), Position::new(0, 0));
    assert_eq!(sm.mappings().get(1).source_info().unwrap().id, 1);
}
