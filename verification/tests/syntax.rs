use sokrates::syntax::{parse, query_captures, QueryCaptureError, SupportedLanguage};

const HELLO_SERVICE: &str = "package demo;\n\npublic class HelloService {\n    public String greet(String name) {\n        return \"Hello, \" + name;\n    }\n}\n";

#[test]
fn java_extension_maps_to_supported_language() {
    assert_eq!(
        SupportedLanguage::from_extension("JAVA"),
        Some(SupportedLanguage::Java)
    );
    assert_eq!(SupportedLanguage::from_extension("xml"), None);
}

#[test]
fn java_extension_in_mixed_case_is_java() {
    assert_eq!(
        SupportedLanguage::from_extension("Java"),
        Some(SupportedLanguage::Java)
    );
    assert_eq!(SupportedLanguage::from_extension("jav"), None);
    assert_eq!(SupportedLanguage::from_extension(""), None);
    assert_eq!(SupportedLanguage::Java.name(), "java");
}

#[test]
fn parses_java_source_without_syntax_errors() {
    let document = parse(SupportedLanguage::Java, String::from(HELLO_SERVICE)).expect("parse");

    assert_eq!(document.root_kind(), "program");
    assert!(!document.has_errors());
    assert_eq!(document.source(), HELLO_SERVICE);
    assert_eq!(document.language(), SupportedLanguage::Java);
}

#[test]
fn broken_java_source_reports_syntax_errors() {
    let document = parse(SupportedLanguage::Java, String::from("public class { void")).expect("parse");

    assert!(document.has_errors());
}

#[test]
fn java_query_extracts_class_and_method_identifiers() {
    let document = parse(SupportedLanguage::Java, String::from(HELLO_SERVICE)).expect("parse");
    let captures = query_captures(
        &document,
        r#"
        (class_declaration
          name: (identifier) @class.name)

        (method_declaration
          name: (identifier) @method.name)
        "#,
    )
    .expect("query");

    let summary = captures
        .iter()
        .map(|capture| (capture.capture_name.as_str(), capture.text.as_str()))
        .collect::<Vec<_>>();

    assert_eq!(
        summary,
        vec![("class.name", "HelloService"), ("method.name", "greet")]
    );
    assert_eq!(captures[0].span.start.row, 2);
    assert_eq!(captures[1].span.start.row, 3);
    assert_eq!(captures[0].kind, "identifier");
    assert_eq!(
        &HELLO_SERVICE[captures[1].span.start_byte..captures[1].span.end_byte],
        "greet"
    );
}

#[test]
fn invalid_query_is_refused() {
    let document = parse(SupportedLanguage::Java, String::from(HELLO_SERVICE)).expect("parse");

    assert_eq!(
        query_captures(&document, "(no_such_node_kind) @x").err(),
        Some(QueryCaptureError::InvalidQuery)
    );
}
