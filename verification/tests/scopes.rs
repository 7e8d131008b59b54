use sokrates::cli::sort_and_dedup_files;
use sokrates::concerns::{analyze_concern_groups, ConcernError};
use sokrates::config::{
    ConcernConfig, ConcernGroupConfig, NamedSourceCodeAspectConfig, SokratesConfig, SourceFileFilterConfig,
};
use sokrates::deps::JavaAnalysisError;
use sokrates::ir::FileRecord;
use sokrates::java::JavaSourceInput;
use sokrates::pathset::PathSet;
use sokrates::repository::analyze_repository;
use sokrates::scopes::{build_file_contexts, classify_scopes, ScopeError};

fn file(relative_path: &str, lines_of_code: usize) -> FileRecord {
    FileRecord {
        relative_path: String::from(relative_path),
        extension: String::from("java"),
        lines_of_code,
        ..FileRecord::default()
    }
}

fn filter(path_pattern: &str) -> SourceFileFilterConfig {
    SourceFileFilterConfig {
        path_pattern: String::from(path_pattern),
        ..SourceFileFilterConfig::default()
    }
}

fn sample_config() -> SokratesConfig {
    SokratesConfig {
        main: NamedSourceCodeAspectConfig {
            name: String::from("main"),
            source_file_filters: vec![filter(".*")],
            files: Vec::new(),
        },
        test: NamedSourceCodeAspectConfig {
            name: String::from("test"),
            source_file_filters: vec![filter(".*Test[.]java")],
            files: Vec::new(),
        },
        generated: NamedSourceCodeAspectConfig {
            name: String::from("generated"),
            source_file_filters: Vec::new(),
            files: vec![String::from("gen/G.java")],
        },
        ..SokratesConfig::default()
    }
}

fn sample_files() -> Vec<FileRecord> {
    vec![file("src/A.java", 0), file("src/ATest.java", 0), file("gen/G.java", 0)]
}

fn sample_contexts(files: &Vec<FileRecord>) -> Vec<sokrates::scopes::FileContext> {
    let absolute = files
        .iter()
        .map(|file| format!("/repo/{}", file.relative_path))
        .collect::<Vec<_>>();
    let contents = files
        .iter()
        .map(|_| String::from("class X {\n\n}\n"))
        .collect::<Vec<_>>();
    build_file_contexts(files, &absolute, &contents)
}

#[test]
fn every_file_lands_in_one_scope() {
    let files = sample_files();
    let contexts = sample_contexts(&files);
    let scopes = classify_scopes(&contexts, &files, &sample_config()).expect("scopes");

    assert_eq!(scopes.main.items, vec![String::from("src/A.java")]);
    assert_eq!(scopes.test.items, vec![String::from("src/ATest.java")]);
    assert_eq!(scopes.generated.items, vec![String::from("gen/G.java")]);
    assert!(scopes.build_and_deployment.items.is_empty());
    assert!(scopes.other.items.is_empty());
}

#[test]
fn file_contexts_count_non_empty_lines() {
    let files = sample_files();
    let contexts = sample_contexts(&files);

    assert_eq!(contexts.len(), 3);
    assert_eq!(contexts[0].file.relative_path, "gen/G.java");
    assert_eq!(contexts[0].file.lines_of_code, 2);
    assert_eq!(contexts[0].lines, vec![String::from("class X {"), String::new(), String::from("}")]);
    assert_eq!(contexts[0].absolute_path, "/repo/gen/G.java");
}

#[test]
fn a_scope_path_without_a_file_is_refused() {
    let files = sample_files();
    let contexts = sample_contexts(&files);
    let known = vec![file("src/A.java", 0)];

    assert_eq!(
        classify_scopes(&contexts, &known, &sample_config()).err(),
        Some(ScopeError::UnknownScopePath { path: String::from("src/ATest.java") })
    );
}

#[test]
fn a_main_file_without_context_is_refused_by_concerns() {
    let files = sample_files();
    let contexts = sample_contexts(&files);
    let mut main = PathSet::new();
    main.insert("missing.java");
    let config = SokratesConfig {
        concern_groups: vec![ConcernGroupConfig {
            name: String::from("group"),
            concerns: vec![ConcernConfig {
                name: String::from("concern"),
                files: vec![String::from("missing.java")],
                ..ConcernConfig::default()
            }],
            meta_concerns: Vec::new(),
        }],
        ..SokratesConfig::default()
    };

    assert_eq!(
        analyze_concern_groups(&contexts, &main, &config).err(),
        Some(ConcernError::MissingFileContext { path: String::from("missing.java") })
    );
    assert!(analyze_concern_groups(&contexts, &main, &SokratesConfig::default()).is_ok());
}

#[test]
fn found_files_are_sorted_and_distinct() {
    let files = vec![file("b.java", 1), file("a.java", 2), file("b.java", 3), file("c.java", 4)];
    let unique = sort_and_dedup_files(files);

    assert_eq!(
        unique
            .iter()
            .map(|f| (f.relative_path.as_str(), f.lines_of_code))
            .collect::<Vec<_>>(),
        vec![("a.java", 2), ("b.java", 1), ("c.java", 4)]
    );
}

#[test]
fn an_invalid_package_pattern_is_refused() {
    let input = JavaSourceInput {
        relative_path: String::from("A.java"),
        source: String::from("package a(b;\nclass A {}\n"),
        file: file("A.java", 0),
    };

    assert_eq!(
        analyze_repository(&[input]).err(),
        Some(JavaAnalysisError::InvalidDependencyPattern { anchor: String::from("a(b") })
    );
}
