use sora::{Extension, Mapping, Mappings, SourceMap, ValidateError};

#[test]
fn test_sourcemap_builder() {
    let sm = SourceMap::builder()
        .with_file("test.file".to_string())
        .with_sources(vec![Some("a.js".to_string())])
        .with_sources_content(vec![None])
        .with_mappings(Mappings::new(vec![Mapping::new(0, 0).with_source(0, 1, 2)]))
        .build()
        .unwrap()
        .to_string();
    assert_eq!(
        sm,
        r#"{"version":3,"file":"test.file","sources":["a.js"],"sourcesContent":[null],"mappings":"AACE"}"#
    );

    let err = SourceMap::builder()
        .with_file("test.file".to_string())
        .with_sources(vec![Some("a.js".to_string())])
        .with_sources_content(vec![None, None])
        .build();
    assert!(matches!(
        err,
        Err(ValidateError::MismatchSourcesContent { .. })
    ))
}

#[test]
fn test_builder_sorts_mappings() {
    let mappings = Mappings::new(vec![Mapping::new(2, 0), Mapping::new(0, 5), Mapping::new(0, 1)]);
    assert_eq!(mappings.len(), 3);
    assert_eq!(mappings.get(0).generated(), sora::Position::new(0, 1));
    assert_eq!(mappings.get(1).generated(), sora::Position::new(0, 5));
    assert_eq!(mappings.get(2).generated(), sora::Position::new(2, 0));
}

#[test]
fn test_builder_with_extension() {
    let ext = Extension::builder().with_ignore_list(vec![0]).build();
    let sm = SourceMap::builder()
        .with_sources(vec![Some("a.js".to_string())])
        .with_sources_content(vec![None])
        .with_extension(ext)
        .build()
        .unwrap();
    assert_eq!(sm.ignore_list(), &vec![0u32]);
    assert_eq!(
        sm.to_string(),
        r#"{"version":3,"sources":["a.js"],"sourcesContent":[null],"mappings":"","ignoreList":[0]}"#
    );
}

#[test]
fn test_validate_unordered_mappings() {
    let table = Mappings::new_unchecked(vec![Mapping::new(1, 0), Mapping::new(0, 0)]);
    let err = SourceMap::builder().with_mappings(table).build();
    assert!(matches!(err, Err(ValidateError::MappingsUnordered)));
}

#[test]
fn test_validate_unknown_name() {
    let table = Mappings::new(vec![Mapping::new(0, 0).with_source(0, 0, 0).with_name(5)]);
    let err = SourceMap::builder()
        .with_sources(vec![Some("a.js".to_string())])
        .with_sources_content(vec![None])
        .with_mappings(table)
        .build();
    assert!(matches!(err, Err(ValidateError::UnknownNameReference(5))));
}

#[test]
fn test_extension_validate() {
    let ext = Extension::builder().with_ignore_list(vec![0, 2]).build();
    assert!(ext.validate(3).is_ok());
    assert!(matches!(
        ext.validate(2),
        Err(ValidateError::InvalidIgnoreList { index: 1, source_id: 2 })
    ));
}
