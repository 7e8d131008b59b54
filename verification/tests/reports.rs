use sokrates::cli::{
    derive_components, is_included_file, merge_file_records, normalize_path, normalized_extensions,
    relative_path_segments, should_visit_entry, to_file_record,
};
use sokrates::config::{
    uses_built_in_dependency_finders, LogicalDecompositionConfig, SokratesConfig, TagRuleConfig, ThresholdsConfig,
};
use sokrates::decompositions::{cyclic_component_dependency_places, export_component_dependency};
use sokrates::folders::{
    folder_based_component_name, greatest_common_prefix, normalized_export_path, whole_folder_prefix,
};
use sokrates::golden::{
    golden_component_dependencies, golden_inventory, JavaAspect, JavaAspectAnalysisResults,
    JavaGoldenAnalysisResults, JavaGoldenComponentDependency, JavaGoldenDependencyEvidence,
    JavaGoldenLogicalDecomposition,
};
use sokrates::ir::{ComponentDependency, DependencyEvidence, FileRecord, Metadata, RepositoryAnalysis, Unit};
use sokrates::metrics::{metric_entry, should_include_metric, MetricValue};
use sokrates::names::{
    extension_metric_suffix, metric_id, safe_file_name, safe_file_system_name, safe_metric_prefix,
};
use sokrates::pattern::matches_entire;
use sokrates::reports::{
    aspect_file_list_name, build_execution_times, build_main_files_text, build_units_text,
    component_file_prefix, concern_file_prefix, dependencies_file_name_prefix, format_grouped_i64,
    range_text_description,
};
use sokrates::config::RangeConfig;
use sokrates::risk::{build_risk_distribution, risk_distribution_value_text};
use sokrates::tags::{build_found_tags, tag_rule_matches_path};

fn strings(values: &[&str]) -> Vec<String> {
    values.iter().map(|value| String::from(*value)).collect()
}

fn file(relative_path: &str, lines_of_code: usize) -> FileRecord {
    FileRecord {
        relative_path: String::from(relative_path),
        extension: String::from("java"),
        lines_of_code,
        components: Vec::new(),
        concerns: Vec::new(),
        units_count: 0,
        units_mc_cabe_index_sum: 0,
        lines_of_code_in_units: 0,
    }
}

#[test]
fn risk_distribution_splits_values_by_thresholds() {
    let thresholds = ThresholdsConfig { low: 10, medium: 20, high: 50, very_high: 100 };
    let values = vec![(5, 5), (15, 15), (30, 30), (70, 70), (200, 200), (10, 10)];
    let distribution = build_risk_distribution("file_size", &thresholds, &values);

    assert_eq!(distribution.key, "file_size");
    assert_eq!(
        (
            distribution.negligible_risk_count,
            distribution.low_risk_count,
            distribution.medium_risk_count,
            distribution.high_risk_count,
            distribution.very_high_risk_count,
        ),
        (2, 1, 1, 1, 1)
    );
    assert_eq!(distribution.total_count, values.len());
    assert_eq!(distribution.total_value, 330);
    assert_eq!(distribution.negligible_risk_label, "1-10");
    assert_eq!(distribution.low_risk_label, "11-20");
    assert_eq!(distribution.medium_risk_label, "21-50");
    assert_eq!(distribution.high_risk_label, "51-100");
    assert_eq!(distribution.very_high_risk_label, "101+");
    assert_eq!(risk_distribution_value_text(&distribution), "15 / 15 / 30 / 70 / 200");
}

#[test]
fn risk_thresholds_are_made_increasing() {
    let thresholds = ThresholdsConfig { low: 0, medium: 0, high: 0, very_high: 0 };
    let distribution = build_risk_distribution("x", &thresholds, &vec![(1, 3), (2, 4), (9, 1)]);

    assert_eq!(distribution.low_risk_threshold, 1);
    assert_eq!(distribution.medium_risk_threshold, 2);
    assert_eq!(distribution.high_risk_threshold, 3);
    assert_eq!(distribution.very_high_risk_threshold, 4);
    assert_eq!(distribution.negligible_risk_count, 1);
    assert_eq!(distribution.low_risk_count, 1);
    assert_eq!(distribution.very_high_risk_count, 1);
    assert_eq!(distribution.total_count, 3);
}

#[test]
fn grouped_numbers_use_commas() {
    assert_eq!(format_grouped_i64(1234567), "1,234,567");
    assert_eq!(format_grouped_i64(-1234), "-1,234");
    assert_eq!(format_grouped_i64(999), "999");
    assert_eq!(format_grouped_i64(0), "0");
    assert_eq!(format_grouped_i64(i64::MAX), "9,223,372,036,854,775,807");
}

#[test]
fn metric_names_become_ids() {
    assert_eq!(metric_id("Lines of code (main)"), "LINES_OF_CODE");
    assert_eq!(metric_id("Number of files - test  "), "NUMBER_OF_FILES_TEST");
    assert_eq!(safe_file_name("My Metric-1.x"), "MY_METRIC_1.X");
    assert_eq!(safe_file_system_name("a b/c.d"), "a_b_c.d");
    assert_eq!(extension_metric_suffix("*.java "), "JAVA");
    assert_eq!(safe_metric_prefix("primary:x"), "PRIMARYX");
}

#[test]
fn report_file_names() {
    assert_eq!(aspect_file_list_name("main", "", ""), "aspect_main.txt");
    assert_eq!(
        aspect_file_list_name("Main Code", "component_primary_", "_x"),
        "aspect_component_primary_Main_Code_x.txt"
    );
    assert_eq!(component_file_prefix("primary"), "component_primary_");
    assert_eq!(concern_file_prefix("Tech"), "concern_Tech_");
    assert_eq!(dependencies_file_name_prefix("", "", "primary"), "dependencies_primary");
    assert_eq!(
        dependencies_file_name_prefix("a b", "c", "my dec"),
        "dependencies_my_dec_a_b_c"
    );
}

#[test]
fn small_report_texts() {
    let range = RangeConfig {
        min: String::from("0"),
        max: String::from("10"),
        tolerance: String::from("1"),
    };
    assert_eq!(range_text_description(&range), "[0 - 10] ±1");
    assert_eq!(
        build_main_files_text(&vec![file("a.java", 3), file("b/c.java", 12)]),
        "path\t# lines of code\na.java\t3\nb/c.java\t12\n"
    );

    let times = build_execution_times(1000, 250);
    assert_eq!(times.len(), 2);
    assert_eq!(times[0].processing, "everything");
    assert_eq!((times[0].start_ms, times[0].end_ms, times[0].duration_ms), (1000, 0, 250));
    assert_eq!(times[1].processing, "saving data");
    assert_eq!((times[1].start_ms, times[1].end_ms), (1000, 1250));
    assert_eq!(build_execution_times(u64::MAX, 5)[1].end_ms, u64::MAX);
}

#[test]
fn units_report_lists_each_unit() {
    let unit = Unit {
        short_name: String::from("void run()"),
        relative_file_name: String::from("A.java"),
        start_line: 3,
        end_line: 7,
        lines_of_code: 5,
        mc_cabe_index: 2,
        number_of_parameters: 0,
        ..Unit::default()
    };

    assert_eq!(
        build_units_text(&vec![unit]),
        "id: 1\nunit: void run()\nfile: A.java\nstart line: 3\nend line: 7\nsize: 5 LOC\nMcCabe index: 2\nnumber of parameters: 0\n\n"
    );
}

#[test]
fn folder_component_names() {
    assert_eq!(folder_based_component_name("src/main/java/App.java", 2), "src/main");
    assert_eq!(folder_based_component_name("src/main/java/App.java", 10), "src/main/java");
    assert_eq!(folder_based_component_name("App.java", 1), "");
    assert_eq!(folder_based_component_name("a\\b\\c.txt", 1), "a");
    assert_eq!(folder_based_component_name("a/b.txt", 0), "");
}

#[test]
fn greatest_common_folder_prefix() {
    assert_eq!(
        greatest_common_prefix(&strings(&["src/main/a.java", "src/main/b.java"])),
        "src/main/"
    );
    assert_eq!(greatest_common_prefix(&strings(&["src/a", "lib/b"])), "");
    assert_eq!(greatest_common_prefix(&strings(&["src/main/x"])), "src/main/");
    assert_eq!(greatest_common_prefix(&Vec::new()), "");
    assert_eq!(whole_folder_prefix("abc"), "");
    assert_eq!(whole_folder_prefix("a/b\\c"), "a/b\\");
}

#[test]
fn whole_text_patterns() {
    assert!(matches_entire(".*[.]java", "src/App.java"));
    assert!(!matches_entire("App", "src/App.java"));
    assert!(!matches_entire("(", "("));
    assert!(matches_entire("a|b", "b"));
}

#[test]
fn metric_inclusion_patterns() {
    let metric = metric_entry("LINES_OF_CODE_MAIN", MetricValue::Count(10), None);

    assert_eq!(metric.id, "LINES_OF_CODE_MAIN");
    assert!(should_include_metric(&metric, None, None));
    assert!(should_include_metric(&metric, Some("LINES_.*"), None));
    assert!(!should_include_metric(&metric, Some("LINES"), None));
    assert!(!should_include_metric(&metric, None, Some(".*_MAIN")));
    assert!(!should_include_metric(&metric, Some("LINES_.*"), Some(".*MAIN")));
}

#[test]
fn tag_rules_tag_matching_paths() {
    let rule = TagRuleConfig {
        tag: String::from("tests"),
        color: String::from("green"),
        path_patterns: strings(&[".*Test[.]java"]),
        exclude_path_patterns: strings(&["legacy/.*"]),
    };

    assert!(tag_rule_matches_path(&rule, "src/AppTest.java"));
    assert!(!tag_rule_matches_path(&rule, "legacy/OldTest.java"));
    assert!(!tag_rule_matches_path(&rule, "src/App.java"));

    let files = vec![
        file("src/ZTest.java", 1),
        file("legacy/OldTest.java", 1),
        file("src/ATest.java", 1),
        file("src/App.java", 1),
    ];
    let unused = TagRuleConfig {
        tag: String::from("none"),
        path_patterns: strings(&["nothing"]),
        ..TagRuleConfig::default()
    };
    let found = build_found_tags(&files, &vec![unused, rule]);

    assert_eq!(found.len(), 1);
    assert_eq!(found[0].tag_rule.tag, "tests");
    assert_eq!(found[0].tag_rule.color, "green");
    assert_eq!(found[0].evidence, "src/ATest.java\nsrc/ZTest.java");
}

#[test]
fn tag_evidence_counts_paths_beyond_twenty() {
    let files = (0..23)
        .map(|index| file(&format!("f{index:02}.txt"), 1))
        .collect::<Vec<_>>();
    let rule = TagRuleConfig {
        tag: String::from("all"),
        path_patterns: strings(&[".*"]),
        ..TagRuleConfig::default()
    };
    let found = build_found_tags(&files, &vec![rule]);

    let expected_paths = (0..20)
        .map(|index| format!("f{index:02}.txt"))
        .collect::<Vec<_>>()
        .join("\n");
    assert_eq!(found[0].evidence, format!("{expected_paths}\n...\n(found 3 more files)"));
}

#[test]
fn golden_inventory_is_sorted_and_distinct() {
    let lists = vec![
        strings(&["src/B.java", "src/A.java"]),
        strings(&["pom.xml", "src/A.java"]),
        Vec::new(),
    ];

    assert_eq!(
        golden_inventory(&lists),
        strings(&["pom.xml", "src/A.java", "src/B.java"])
    );
}

#[test]
fn golden_component_dependencies_are_flattened_and_sorted() {
    let dependency = |from: &str, to: &str, count: usize| JavaGoldenComponentDependency {
        decomposition: String::new(),
        from_component: String::from(from),
        loc_from: 7,
        evidence: vec![JavaGoldenDependencyEvidence {
            path_from: String::from("a/A.java"),
            evidence: String::from("import b.B;"),
        }],
        to_component: String::from(to),
        count,
    };
    let decompositions = vec![
        JavaGoldenLogicalDecomposition {
            key: String::from("secondary"),
            component_dependencies: vec![dependency("a", "b", 1)],
        },
        JavaGoldenLogicalDecomposition {
            key: String::from("primary"),
            component_dependencies: vec![dependency("b", "a", 2), dependency("a", "c", 3), dependency("a", "c", 4)],
        },
    ];
    let flattened = golden_component_dependencies(&decompositions);

    assert_eq!(
        flattened
            .iter()
            .map(|d| (d.decomposition.as_str(), d.from_component.as_str(), d.to_component.as_str(), d.count))
            .collect::<Vec<_>>(),
        vec![
            ("primary", "a", "c", 3),
            ("primary", "a", "c", 4),
            ("primary", "b", "a", 2),
            ("secondary", "a", "b", 1),
        ]
    );
    assert_eq!(flattened[0].evidence, decompositions[1].component_dependencies[1].evidence);
    assert_eq!(flattened[0].loc_from, 7);
}

#[test]
fn golden_results_are_named_by_their_metadata() {
    let results = JavaGoldenAnalysisResults {
        metadata: Metadata { name: String::from("sample"), description: String::new() },
        main_aspect_analysis_results: JavaAspectAnalysisResults { aspect: JavaAspect::default() },
        test_aspect_analysis_results: JavaAspectAnalysisResults::default(),
        generated_aspect_analysis_results: JavaAspectAnalysisResults::default(),
        build_and_deploy_aspect_analysis_results: JavaAspectAnalysisResults::default(),
        other_aspect_analysis_results: JavaAspectAnalysisResults::default(),
    };

    assert_eq!(results.display_name(), "sample");
}

#[test]
fn repository_analysis_counts_its_files() {
    let analysis = RepositoryAnalysis::with_files(
        Metadata { name: String::from("sample"), description: String::from("fixture") },
        vec![file("a.java", 1), file("b.java", 2)],
    );

    assert_eq!(analysis.summary.total_files, 2);
    assert_eq!(analysis.metadata.name, "sample");
    assert!(analysis.units.is_empty());
}

#[test]
fn paths_and_extensions() {
    assert_eq!(normalize_path(&strings(&["src", "main\\java", "A.java"])), "src/main/java/A.java");
    let record = to_file_record(&strings(&["src", "A.JAVA"]), Some("JAVA"));
    assert_eq!(record.relative_path, "src/A.JAVA");
    assert_eq!(record.extension, "java");
    assert_eq!(to_file_record(&strings(&["Makefile"]), None).extension, "");
    assert_eq!(relative_path_segments("/src//main/A.java"), strings(&["src", "main", "A.java"]));

    let config = SokratesConfig {
        extensions: strings(&["Java", "xml", "JAVA"]),
        ..SokratesConfig::default()
    };
    let extensions = normalized_extensions(Some(&config));
    assert_eq!(extensions.items, strings(&["java", "xml"]));
    assert!(is_included_file(Some("JaVa"), &extensions));
    assert!(!is_included_file(Some("md"), &extensions));
    assert!(!is_included_file(None, &extensions));
    assert!(is_included_file(None, &normalized_extensions(None)));

    assert!(should_visit_entry(false, "target"));
    assert!(!should_visit_entry(true, "target"));
    assert!(!should_visit_entry(true, ".git"));
    assert!(!should_visit_entry(true, "_sokrates"));
    assert!(should_visit_entry(true, "src"));
}

#[test]
fn components_come_from_the_first_decomposition() {
    assert!(derive_components("alpha/api/A.java", None).is_empty());
    let config = SokratesConfig::default();
    assert_eq!(derive_components("alpha/api/A.java", Some(&config)), strings(&["primary::alpha"]));

    let config = SokratesConfig {
        logical_decompositions: vec![LogicalDecompositionConfig {
            name: String::from("layers"),
            components_folder_depth: 2,
            ..LogicalDecompositionConfig::default()
        }],
        ..SokratesConfig::default()
    };
    assert_eq!(derive_components("alpha/api/A.java", Some(&config)), strings(&["layers::alpha/api"]));
}

#[test]
fn merged_records_take_the_updates() {
    let mut files = vec![file("a.java", 1), file("b.java", 2)];
    let mut update = file("b.java", 20);
    update.units_count = 3;
    merge_file_records(&mut files, vec![update, file("c.java", 5)]);

    assert_eq!(files.len(), 2);
    assert_eq!(files[0].lines_of_code, 1);
    assert_eq!(files[1].lines_of_code, 20);
    assert_eq!(files[1].units_count, 3);
}

#[test]
fn component_dependency_exports_and_cycles() {
    let dependency = |from: &str, to: &str| ComponentDependency {
        decomposition: String::from("primary"),
        from_component: String::from(from),
        loc_from: 10,
        evidence: vec![DependencyEvidence {
            path_from: String::from("a/A.java"),
            evidence: String::from("import b.B;"),
        }],
        to_component: String::from(to),
        count: 1,
    };
    let exported = export_component_dependency(&dependency("a", "b"));

    assert_eq!(exported.dependency_string, "a -> b");
    assert_eq!(exported.text, None);
    assert_eq!(exported.color, "");
    assert_eq!(exported.evidence[0].evidence, "import b.B;");
    assert_eq!(exported.loc_from, 10);

    let cycle = vec![
        export_component_dependency(&dependency("a", "b")),
        export_component_dependency(&dependency("b", "a")),
        export_component_dependency(&dependency("b", "c")),
    ];
    assert_eq!(cyclic_component_dependency_places(&cycle), 1);
    assert_eq!(cyclic_component_dependency_places(&cycle[2..].to_vec()), 0);
}

#[test]
fn export_paths_drop_the_extended_prefix() {
    assert_eq!(normalized_export_path("\\\\?\\C:\\repo"), "C:\\repo");
    assert_eq!(normalized_export_path("/repo/src"), "/repo/src");
}

fn finder_settings(value: serde_json::Value) -> LogicalDecompositionConfig {
    let mut settings = serde_json::Map::new();
    settings.insert(String::from("useBuiltInDependencyFinders"), value);
    LogicalDecompositionConfig {
        name: String::from("primary"),
        dependencies_finder: serde_json::Value::Object(settings),
        ..Default::default()
    }
}

#[test]
fn built_in_dependency_finders_are_on_unless_turned_off() {
    assert!(uses_built_in_dependency_finders(&LogicalDecompositionConfig::default()));
    assert!(!uses_built_in_dependency_finders(&finder_settings(serde_json::Value::Bool(false))));
    assert!(uses_built_in_dependency_finders(&finder_settings(serde_json::Value::Bool(true))));
    assert!(uses_built_in_dependency_finders(&finder_settings(serde_json::Value::String(String::from("false")))));
}
