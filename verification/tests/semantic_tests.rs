use bear::config;
use bear::semantic::{CompilerPass, Meaning, RecognitionResult, SemanticRecognition};
use bear::Execution;

fn recognizer() -> SemanticRecognition {
    SemanticRecognition {
        compilers_to_recognize: vec![],
        compilers_to_exclude: vec![],
        compilers_to_exclude_by_arguments: vec![],
    }
}

fn execution(executable: &str, arguments: &[&str]) -> Execution {
    Execution {
        executable: executable.to_string(),
        arguments: arguments.iter().map(|a| a.to_string()).collect(),
        working_dir: "/proj".to_string(),
        environment: vec![],
    }
}

#[test]
fn scenario_compile_is_decomposed() {
    let x = execution("/usr/bin/cc", &["-c", "a.c", "-o", "a.o"]);
    let r = recognizer().recognize(&x);
    let expected = RecognitionResult::Recognized(Ok(Meaning::Compiler {
        compiler: "/usr/bin/cc".to_string(),
        working_dir: "/proj".to_string(),
        passes: vec![CompilerPass::Compile {
            source: "a.c".to_string(),
            output: Some("a.o".to_string()),
            flags: vec!["-c".to_string(), "-o".to_string(), "a.o".to_string()],
        }],
    }));
    assert_eq!(r, expected);
}

#[test]
fn scenario_ls_is_not_recognized() {
    let x = execution("/bin/ls", &["-l"]);
    assert_eq!(recognizer().recognize(&x), RecognitionResult::NotRecognized);
}

#[test]
fn multiple_sources_yield_one_pass_each_in_order() {
    let x = execution("/usr/bin/gcc", &["-c", "a.c", "b.c"]);
    match recognizer().recognize(&x) {
        RecognitionResult::Recognized(Ok(Meaning::Compiler { passes, .. })) => {
            assert_eq!(passes.len(), 2);
            match &passes[0] {
                CompilerPass::Compile { source, .. } => assert_eq!(source, "a.c"),
                other => panic!("expected a compile pass, got {:?}", other),
            }
            match &passes[1] {
                CompilerPass::Compile { source, .. } => assert_eq!(source, "b.c"),
                other => panic!("expected a compile pass, got {:?}", other),
            }
        }
        other => panic!("expected a compiler meaning, got {:?}", other),
    }
}

#[test]
fn compile_and_link_yields_passes_for_each_sub_operation() {
    let x = execution("/usr/bin/cc", &["a.c", "-o", "a.out"]);
    match recognizer().recognize(&x) {
        RecognitionResult::Recognized(Ok(Meaning::Compiler { passes, .. })) => {
            assert_eq!(passes.len(), 2);
            assert!(matches!(&passes[0], CompilerPass::Compile { .. }));
            match &passes[1] {
                CompilerPass::Link { output } => assert_eq!(output.as_deref(), Some("a.out")),
                other => panic!("expected a link pass, got {:?}", other),
            }
        }
        other => panic!("expected a compiler meaning, got {:?}", other),
    }
}

#[test]
fn version_query_is_recognized_but_ignored() {
    let x = execution("/usr/bin/cc", &["--version"]);
    assert_eq!(
        recognizer().recognize(&x),
        RecognitionResult::Recognized(Ok(Meaning::Ignored))
    );
    assert_eq!(recognizer().apply(x), None);
}

#[test]
fn dangling_output_flag_is_a_soft_failure() {
    let x = execution("/usr/bin/cc", &["a.c", "-o"]);
    match recognizer().recognize(&x) {
        RecognitionResult::Recognized(Err(_)) => {}
        other => panic!("expected a recognition failure, got {:?}", other),
    }
    // The soft failure drops the execution from output; the run continues.
    assert_eq!(recognizer().apply(x), None);
}

#[test]
fn excluded_path_wins_over_recognition() {
    let rec = SemanticRecognition {
        compilers_to_recognize: vec![],
        compilers_to_exclude: vec!["/usr/bin/cc".to_string()],
        compilers_to_exclude_by_arguments: vec![],
    };
    let x = execution("/usr/bin/cc", &["-c", "a.c"]);
    assert_eq!(rec.recognize(&x), RecognitionResult::NotRecognized);
}

#[test]
fn excluded_argument_substring_wins() {
    let rec = SemanticRecognition {
        compilers_to_recognize: vec![],
        compilers_to_exclude: vec![],
        compilers_to_exclude_by_arguments: vec!["conftest".to_string()],
    };
    let x = execution("/usr/bin/cc", &["-c", "conftest.c"]);
    assert_eq!(rec.recognize(&x), RecognitionResult::NotRecognized);
    // The same execution without the substring is recognized.
    let y = execution("/usr/bin/cc", &["-c", "a.c"]);
    assert!(matches!(
        rec.recognize(&y),
        RecognitionResult::Recognized(Ok(Meaning::Compiler { .. }))
    ));
}

#[test]
fn configured_compiler_is_recognized() {
    let rec = SemanticRecognition {
        compilers_to_recognize: vec!["/opt/cross/mycc".to_string()],
        compilers_to_exclude: vec![],
        compilers_to_exclude_by_arguments: vec![],
    };
    let x = execution("/opt/cross/mycc", &["-c", "a.c"]);
    assert!(matches!(
        rec.recognize(&x),
        RecognitionResult::Recognized(Ok(Meaning::Compiler { .. }))
    ));
    // Unknown and unconfigured stays unrecognized.
    assert_eq!(recognizer().recognize(&x), RecognitionResult::NotRecognized);
}

#[test]
fn try_from_accepts_a_valid_configuration() {
    let cfg = config::Main {
        intercept: config::Intercept::Wrapper {
            executables: vec!["/opt/cross/mycc".to_string()],
        },
        output: config::Output::Clang {
            filter: config::CompilerFilter {
                with_paths: vec!["/usr/bin/cc".to_string()],
                with_arguments: vec!["conftest".to_string()],
            },
            transform: config::FlagTransform {
                arguments_to_add: vec![],
                arguments_to_remove: vec![],
            },
        },
    };
    let rec = SemanticRecognition::try_from(&cfg).expect("configuration is valid");
    assert_eq!(rec.compilers_to_recognize, vec!["/opt/cross/mycc".to_string()]);
    assert_eq!(rec.compilers_to_exclude, vec!["/usr/bin/cc".to_string()]);
    assert_eq!(
        rec.compilers_to_exclude_by_arguments,
        vec!["conftest".to_string()]
    );
}

#[test]
fn try_from_rejects_an_empty_pattern() {
    let cfg = config::Main {
        intercept: config::Intercept::Preload,
        output: config::Output::Clang {
            filter: config::CompilerFilter {
                with_paths: vec![String::new()],
                with_arguments: vec![],
            },
            transform: config::FlagTransform {
                arguments_to_add: vec![],
                arguments_to_remove: vec![],
            },
        },
    };
    assert!(SemanticRecognition::try_from(&cfg).is_err());
}
