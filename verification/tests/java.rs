use sokrates::ir::FileRecord;
use sokrates::java::{
    calculate_mcabe_index, cleaned_lines_of_code, normalize_whitespace, package_declaration,
    strip_comments_preserving_line_breaks, strip_java_comments_keep_lines, JavaSourceInput,
};
use sokrates::repository::analyze_repository;
use sokrates::units::analyze_file;

const CALCULATOR: &str = "package app;

public class Calculator {
    static {
        System.out.println(\"loaded\");
    }

    public Calculator() {
    }

    public int add(int a, int b) {
        return a + b;
    }

    public String classify(int value) {
        if (value < 0) {
            return \"negative\";
        } else if (value == 0) {
            return \"zero\";
        }
        return value > 10 ? \"large\" : \"small\";
    }
}
";

fn chars(text: &str) -> Vec<char> {
    text.chars().collect()
}

fn text(chars: &[char]) -> String {
    chars.iter().collect()
}

fn record(relative_path: &str, components: Vec<String>) -> FileRecord {
    FileRecord {
        relative_path: String::from(relative_path),
        extension: String::from("java"),
        lines_of_code: 0,
        components,
        concerns: Vec::new(),
        units_count: 0,
        units_mc_cabe_index_sum: 0,
        lines_of_code_in_units: 0,
    }
}

fn input(relative_path: &str, component: &str, source: &str) -> JavaSourceInput {
    JavaSourceInput {
        relative_path: String::from(relative_path),
        source: String::from(source),
        file: record(relative_path, vec![format!("primary::{component}")]),
    }
}

#[test]
fn extracts_java_units_ordered_by_size() {
    let relative_path = "src/main/java/app/Calculator.java";
    let analysis = analyze_file(relative_path, CALCULATOR, vec![String::from("primary::src")])
        .expect("analysis");

    let summary = analysis
        .units
        .iter()
        .map(|unit| {
            (
                unit.short_name.as_str(),
                unit.start_line,
                unit.end_line,
                unit.lines_of_code,
                unit.mc_cabe_index,
                unit.number_of_parameters,
            )
        })
        .collect::<Vec<_>>();

    assert_eq!(
        summary,
        vec![
            ("public String classify()", 15, 22, 8, 4, 1),
            ("static", 4, 6, 3, 1, 0),
            ("public int add()", 11, 13, 3, 1, 2),
            ("public Calculator()", 8, 9, 2, 1, 0),
        ]
    );
    assert!(analysis.diagnostics.is_empty());
    let classify = &analysis.units[0];
    assert_eq!(classify.kind, "method");
    assert_eq!(classify.id, "src/main/java/app/Calculator.java:15:public String classify()");
    assert_eq!(classify.relative_file_name, relative_path);
    assert_eq!(classify.file_lines_count, 23);
    assert_eq!(classify.components, vec![String::from("primary::src")]);
    assert_eq!(analysis.units[1].kind, "static");
    assert_eq!(analysis.units[3].kind, "constructor");
}

#[test]
fn syntax_errors_become_a_warning() {
    let analysis = analyze_file("Broken.java", "public class Broken { int x = ; }", Vec::new())
        .expect("analysis");

    assert_eq!(analysis.diagnostics.len(), 1);
    assert_eq!(analysis.diagnostics[0].relative_path, "Broken.java");
    assert_eq!(
        analysis.diagnostics[0].message,
        "Tree-sitter reported syntax errors while parsing Java source."
    );
    assert!(analysis.units.is_empty());
}

#[test]
fn calculates_file_level_java_metrics() {
    let relative_path = "src/main/java/app/Calculator.java";
    let analysis = analyze_repository(&[JavaSourceInput {
        relative_path: String::from(relative_path),
        source: String::from(CALCULATOR),
        file: record(relative_path, vec![String::from("primary::src")]),
    }])
    .expect("analysis");

    assert_eq!(
        analysis
            .files
            .iter()
            .map(|file| {
                (
                    file.relative_path.as_str(),
                    file.lines_of_code,
                    file.units_count,
                    file.units_mc_cabe_index_sum,
                    file.lines_of_code_in_units,
                )
            })
            .collect::<Vec<_>>(),
        vec![(relative_path, 19, 4, 7, 16)]
    );
    assert_eq!(analysis.units.len(), 4);
    assert!(analysis.dependencies.is_empty());
}

const ALPHA_SERVICE: &str = "package alpha.api;

import alpha.internal.AlphaHelper;
import beta.api.BetaService;
import beta.internal.BetaHelper;

public class AlphaService {
    public String run() {
        String value = AlphaHelper.help();
        return value + BetaService.serve() + BetaHelper.assist();
    }
}
";

const ALPHA_HELPER: &str = "package alpha.internal;

public class AlphaHelper {
    public static String help() {
        return \"alpha\";
    }
}
";

const BETA_FACADE: &str = "package beta.api;

public class BetaFacade {
    public String face() {
        return \"facade\";
    }
}
";

const BETA_SERVICE: &str = "package beta.api;

public class BetaService {
    public static String serve() {
        return \"beta\";
    }

    public int size() {
        return 1;
    }
}
";

const BETA_HELPER: &str = "package beta.internal;

public class BetaHelper {
    public static String assist() {
        return \"help\";
    }
}
";

#[test]
fn extracts_java_package_and_component_dependencies() {
    let analysis = analyze_repository(&[
        input("alpha/api/AlphaService.java", "alpha", ALPHA_SERVICE),
        input("alpha/internal/AlphaHelper.java", "alpha", ALPHA_HELPER),
        input("beta/api/BetaFacade.java", "beta", BETA_FACADE),
        input("beta/api/BetaService.java", "beta", BETA_SERVICE),
        input("beta/internal/BetaHelper.java", "beta", BETA_HELPER),
    ])
    .expect("analysis");

    let dependency_summary = analysis
        .dependencies
        .iter()
        .map(|dependency| {
            (
                dependency.from.as_str(),
                dependency.to.as_str(),
                dependency
                    .from_files
                    .iter()
                    .map(|from_file| {
                        (
                            from_file.file.relative_path.as_str(),
                            from_file.code_fragment.as_str(),
                        )
                    })
                    .collect::<Vec<_>>(),
                dependency
                    .to_anchor
                    .files
                    .iter()
                    .map(|file| file.relative_path.as_str())
                    .collect::<Vec<_>>(),
            )
        })
        .collect::<Vec<_>>();

    assert_eq!(
        dependency_summary,
        vec![
            (
                "alpha.api",
                "alpha.internal",
                vec![("alpha/api/AlphaService.java", "import alpha.internal.AlphaHelper;")],
                vec!["alpha/internal/AlphaHelper.java"],
            ),
            (
                "alpha.api",
                "beta.api",
                vec![("alpha/api/AlphaService.java", "import beta.api.BetaService;")],
                vec!["beta/api/BetaFacade.java", "beta/api/BetaService.java"],
            ),
            (
                "alpha.api",
                "beta.internal",
                vec![("alpha/api/AlphaService.java", "import beta.internal.BetaHelper;")],
                vec!["beta/internal/BetaHelper.java"],
            ),
        ]
    );
    assert_eq!(analysis.dependencies[0].kind, "package");
    assert_eq!(analysis.dependencies[0].from_anchor.code_fragment, "package alpha.api;");

    let component_summary = analysis
        .component_dependencies
        .iter()
        .map(|dependency| {
            (
                dependency.decomposition.as_str(),
                dependency.from_component.as_str(),
                dependency.to_component.as_str(),
                dependency.count,
                dependency.loc_from,
                dependency
                    .evidence
                    .iter()
                    .map(|evidence| (evidence.path_from.as_str(), evidence.evidence.as_str()))
                    .collect::<Vec<_>>(),
            )
        })
        .collect::<Vec<_>>();

    assert_eq!(
        component_summary,
        vec![(
            "primary",
            "alpha",
            "beta",
            1,
            10,
            vec![("alpha/api/AlphaService.java", "import beta.api.BetaService;")],
        )]
    );
    assert_eq!(
        analysis
            .files
            .iter()
            .map(|file| {
                (
                    file.relative_path.as_str(),
                    file.lines_of_code,
                    file.units_count,
                    file.units_mc_cabe_index_sum,
                    file.lines_of_code_in_units,
                )
            })
            .collect::<Vec<_>>(),
        vec![
            ("alpha/api/AlphaService.java", 10, 1, 1, 4),
            ("alpha/internal/AlphaHelper.java", 6, 1, 1, 3),
            ("beta/api/BetaFacade.java", 6, 1, 1, 3),
            ("beta/api/BetaService.java", 9, 2, 2, 6),
            ("beta/internal/BetaHelper.java", 6, 1, 1, 3),
        ]
    );
}

#[test]
fn comment_strippers_keep_line_breaks() {
    let source = chars("a /* x\ny */ b // c\nd \"/* kept */\" '/'");
    let stripped = strip_comments_preserving_line_breaks(&source);

    assert_eq!(text(&stripped), "a \n b \nd \"/* kept */\" '/'");
    assert_eq!(
        stripped.iter().filter(|c| **c == '\n').count(),
        source.iter().filter(|c| **c == '\n').count()
    );
    assert_eq!(strip_java_comments_keep_lines(&source), stripped);
}

#[test]
fn cleaned_lines_of_code_skip_blank_and_comment_lines() {
    assert_eq!(cleaned_lines_of_code("a\n\n  // note\n/* one\ntwo */\nb\r\n"), 2);
    assert_eq!(cleaned_lines_of_code(""), 0);
    assert_eq!(cleaned_lines_of_code(CALCULATOR), 19);
}

#[test]
fn mcabe_index_counts_branch_keywords() {
    assert_eq!(calculate_mcabe_index(&chars("void f() {}")), 1);
    assert_eq!(
        calculate_mcabe_index(&chars("if(a && b) { while(c) {} } else { x = y ? 1 : 2; }")),
        5
    );
    assert_eq!(calculate_mcabe_index(&chars("try {} catch(E e) {} for(;;) {} case 1:")), 4);
}

#[test]
fn package_declaration_reads_name_and_fragment() {
    assert_eq!(
        package_declaration("// header\npackage  com.example.app ;\nclass A {}"),
        Some((String::from("com.example.app"), String::from("package  com.example.app ;")))
    );
    assert_eq!(package_declaration("class A {}"), None);
    assert_eq!(package_declaration("package ;"), None);
}

#[test]
fn whitespace_is_collapsed_to_single_spaces() {
    assert_eq!(text(&normalize_whitespace(&chars("  public\n\tint   add "))), "public int add");
    assert_eq!(text(&normalize_whitespace(&chars(" \n "))), "");
}

#[test]
fn analyze_file_reads_one_method_unit() {
    let source = "class A {\n  void f(int x) {\n    if (x > 0) {}\n  }\n}\n";
    let analysis = analyze_file("A.java", source, vec![String::from("primary::src")]).expect("analysis");
    assert!(analysis.diagnostics.is_empty());
    assert_eq!(analysis.units.len(), 1);
    let unit = &analysis.units[0];
    assert_eq!(unit.id, "A.java:2:void f()");
    assert_eq!(unit.kind, "method");
    assert_eq!(unit.short_name, "void f()");
    assert_eq!((unit.start_line, unit.end_line, unit.lines_of_code), (2, 4, 3));
    assert_eq!(unit.mc_cabe_index, 2);
    assert_eq!(unit.number_of_parameters, 1);
    assert_eq!(unit.file_lines_count, 5);
    assert_eq!(unit.components, vec![String::from("primary::src")]);
}

#[test]
fn two_packages_give_one_component_dependency() {
    let inputs = [
        JavaSourceInput {
            relative_path: String::from("a/A.java"),
            source: String::from("package a;\nimport b.B;\nclass A {}\n"),
            file: record("a/A.java", vec![String::from("primary::a")]),
        },
        JavaSourceInput {
            relative_path: String::from("b/B.java"),
            source: String::from("package b;\nclass B {}\n"),
            file: record("b/B.java", vec![String::from("primary::b")]),
        },
    ];
    let analysis = analyze_repository(&inputs).expect("analysis");
    assert!(analysis.units.is_empty());
    assert_eq!(
        analysis.files.iter().map(|f| (f.relative_path.as_str(), f.lines_of_code)).collect::<Vec<_>>(),
        vec![("a/A.java", 3), ("b/B.java", 2)]
    );
    assert_eq!(analysis.dependencies.len(), 1);
    let d = &analysis.dependencies[0];
    assert_eq!((d.from.as_str(), d.to.as_str()), ("a", "b"));
    assert_eq!(d.from_files[0].code_fragment, "import b.B;");
    assert_eq!(d.to_anchor.dependency_patterns, vec![String::from("import.* b([.][A-Z].*|[.][*]|);")]);
    assert_eq!(
        analysis
            .component_dependencies
            .iter()
            .map(|c| (c.decomposition.as_str(), c.from_component.as_str(), c.to_component.as_str(), c.count, c.loc_from))
            .collect::<Vec<_>>(),
        vec![("primary", "a", "b", 1, 3)]
    );
}
