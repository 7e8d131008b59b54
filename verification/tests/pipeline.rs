use sokrates::aspects::export_concerns_analysis;
use sokrates::concerns::analyze_concern_groups;
use sokrates::config::{LogicalDecompositionConfig, NamedSourceCodeAspectConfig, SokratesConfig, SourceFileFilterConfig};
use sokrates::decompositions::{export_logical_decompositions, folder_searches_ok};
use sokrates::export::filter_units;
use sokrates::ir::FileRecord;
use sokrates::metrics::{find_control_metric, MetricValue};
use sokrates::scopes::{build_file_contexts, classify_scopes};
use sokrates::summary::{build_analysis_results_bundle, build_textual_summary, config_thresholds_ok};
use sokrates::units::analyze_file;

const CALCULATOR: &str = "package app;

public class Calculator {
    static {
        System.out.println(\"loaded\");
    }

    public Calculator() {
    }

    public int add(int a, int b) {
        return a + b;
    }

    public String classify(int value) {
        if (value < 0) {
            return \"negative\";
        } else if (value == 0) {
            return \"zero\";
        }
        return value > 10 ? \"large\" : \"small\";
    }
}
";

const CALCULATOR_TEST: &str = "class CalculatorTest {\n}\n";

fn record(relative_path: &str) -> FileRecord {
    FileRecord {
        relative_path: String::from(relative_path),
        extension: String::from("java"),
        components: vec![String::from("primary::src")],
        ..FileRecord::default()
    }
}

fn aspect(name: &str, pattern: &str) -> NamedSourceCodeAspectConfig {
    NamedSourceCodeAspectConfig {
        name: String::from(name),
        source_file_filters: vec![SourceFileFilterConfig {
            path_pattern: String::from(pattern),
            ..SourceFileFilterConfig::default()
        }],
        files: Vec::new(),
    }
}

#[test]
fn export_results_summarise_a_small_repository() {
    let main_path = "src/main/java/app/Calculator.java";
    let test_path = "src/test/java/app/CalculatorTest.java";
    let files = vec![record(main_path), record(test_path)];
    let absolute = vec![format!("/repo/{main_path}"), format!("/repo/{test_path}")];
    let contents = vec![String::from(CALCULATOR), String::from(CALCULATOR_TEST)];
    let contexts = build_file_contexts(&files, &absolute, &contents);
    let config = SokratesConfig {
        main: aspect("main", ".*/src/main/.*"),
        test: aspect("test", ".*/src/test/.*"),
        logical_decompositions: vec![LogicalDecompositionConfig {
            name: String::from("primary"),
            scope: String::from("main"),
            ..LogicalDecompositionConfig::default()
        }],
        ..SokratesConfig::default()
    };
    let scopes = classify_scopes(&contexts, &files, &config).expect("scopes");
    let units = analyze_file(main_path, CALCULATOR, vec![String::from("primary::src")])
        .expect("units")
        .units;
    let main_units = filter_units(&units, &scopes.main);
    let groups = analyze_concern_groups(&contexts, &scopes.main, &config).expect("concerns");
    assert!(folder_searches_ok(&files, &scopes, &config));
    let decompositions = export_logical_decompositions("/repo", &files, &contexts, &scopes, &config, &Vec::new());
    let concerns = export_concerns_analysis(&files, &contexts, &groups);
    assert!(config_thresholds_ok(&config));
    let bundle = build_analysis_results_bundle(
        &files,
        &contexts,
        &scopes,
        &config,
        &main_units,
        &Vec::new(),
        &concerns,
        &decompositions,
        1234,
    );

    assert_eq!(bundle.main_aspect.files_count, 1);
    assert_eq!(bundle.main_aspect.lines_of_code, 19);
    assert_eq!(bundle.test_aspect.lines_of_code, 2);
    assert_eq!(bundle.units_analysis.total_number_of_units, 4);
    assert_eq!(bundle.units_analysis.lines_of_code_in_units, 16);

    let total = find_control_metric(&bundle.metrics, "total_number_of_files").expect("metric");
    assert_eq!(bundle.metrics[total].id, "TOTAL_NUMBER_OF_FILES");
    assert_eq!(bundle.metrics[total].value, MetricValue::Count(2));
    let main_loc = find_control_metric(&bundle.metrics, "LINES_OF_CODE_MAIN").expect("metric");
    assert_eq!(bundle.metrics[main_loc].value, MetricValue::Count(19));
    let ratio = find_control_metric(&bundle.metrics, "TEST_VS_MAIN_LINES_OF_CODE_PERCENTAGE").expect("metric");
    assert_eq!(bundle.metrics[ratio].value, MetricValue::TestRatio { test: 2, main: 19 });
    assert_eq!(find_control_metric(&bundle.metrics, "NO_SUCH_METRIC"), None);
    assert_eq!(bundle.metrics[0].id, "TOTAL_NUMBER_OF_FILES");
    assert_eq!(bundle.metrics[bundle.metrics.len() - 1].id, "TOTAL_ANALYSIS_TIME_IN_MILLIS");
    assert!(find_control_metric(&bundle.metrics, "NUMBER_OF_UNITS").is_some());
    assert!(find_control_metric(&bundle.metrics, "LINES_OF_CODE_OUTSIDE_UNITS").is_some());

    let summary = build_textual_summary(&files, &bundle, &decompositions, &groups, &Vec::new(), "1.23");
    let lines = summary.lines().collect::<Vec<_>>();
    assert_eq!(lines[0], "Start of analysis");
    assert_eq!(lines[1], "Found 2 files");
    assert_eq!(lines[2], "1 are in the main's scope  (19 lines of code)");
    assert!(lines.contains(&"  - found 4 units (16 lines of code in units)"));
    assert!(lines.contains(&"Unit size 16 / 0 / 0 / 0 / 0"));
    assert!(lines.contains(&"Conditional complexity: 16 / 0 / 0 / 0 / 0"));
    assert!(lines.contains(&"  - \"primary\", found 0 dependencies (0 component dependencies)"));
    assert!(summary.ends_with("Total analysis time: 1.23s\n"));
}
