use bear::application::{Application, BuildCommand, BuildEvents, BuildSemantic, Mode};
use bear::config;
use bear::semantic::{CompilerPass, Meaning};
use bear::{Envelope, Event, Execution, ProcessId, ReporterId};

fn strings(xs: &[&str]) -> Vec<String> {
    xs.iter().map(|x| x.to_string()).collect()
}

fn plain_config(add: &[&str], remove: &[&str]) -> config::Main {
    config::Main {
        intercept: config::Intercept::Preload,
        output: config::Output::Clang {
            filter: config::CompilerFilter { with_paths: vec![], with_arguments: vec![] },
            transform: config::FlagTransform {
                arguments_to_add: strings(add),
                arguments_to_remove: strings(remove),
            },
        },
    }
}

fn semantic_mode() -> Mode {
    Mode::Semantic {
        input: BuildEvents { file_name: "events.db".to_string() },
        output: BuildSemantic { file_name: "compile_commands.json".to_string() },
    }
}

fn framed(executable: &str, arguments: &[&str], log: &mut Vec<u8>) {
    let envelope = Envelope {
        rid: ReporterId(1),
        timestamp: 1,
        event: Event {
            pid: ProcessId(1),
            execution: Execution {
                executable: executable.to_string(),
                arguments: strings(arguments),
                working_dir: "/proj".to_string(),
                environment: vec![],
            },
        },
    };
    envelope.write_into(log).unwrap();
}

#[test]
fn semantic_run_classifies_and_rewrites() {
    let app = Application::configure(semantic_mode(), plain_config(&["-DFOO"], &["-Wall"]))
        .expect("configuration is valid");
    let mut log: Vec<u8> = Vec::new();
    framed("/usr/bin/cc", &["-c", "-Wall", "a.c"], &mut log);
    framed("/bin/ls", &["-l"], &mut log);
    framed("/usr/bin/cc", &["--version"], &mut log);
    let (meanings, warning) = app.run(log).expect("the semantic mode runs");
    assert!(!warning);
    assert_eq!(meanings.len(), 1);
    match &meanings[0] {
        Meaning::Compiler { compiler, working_dir, passes } => {
            assert_eq!(compiler, "/usr/bin/cc");
            assert_eq!(working_dir, "/proj");
            assert_eq!(passes.len(), 1);
            match &passes[0] {
                CompilerPass::Compile { source, output, flags } => {
                    assert_eq!(source, "a.c");
                    assert_eq!(*output, None);
                    assert_eq!(*flags, strings(&["-c", "-DFOO"]));
                }
                other => panic!("expected a compile pass, got {:?}", other),
            }
        }
        other => panic!("expected a compiler meaning, got {:?}", other),
    }
}

#[test]
fn empty_log_is_a_valid_run_with_no_meanings() {
    let app = Application::configure(semantic_mode(), plain_config(&[], &[]))
        .expect("configuration is valid");
    let (meanings, warning) = app.run(Vec::new()).expect("the semantic mode runs");
    assert!(meanings.is_empty());
    assert!(!warning);
}

#[test]
fn trailing_fragment_surfaces_as_a_warning() {
    let app = Application::configure(semantic_mode(), plain_config(&[], &[]))
        .expect("configuration is valid");
    let mut log: Vec<u8> = Vec::new();
    framed("/usr/bin/cc", &["-c", "a.c"], &mut log);
    log.extend_from_slice(&[0, 0]);
    let (meanings, warning) = app.run(log).expect("the semantic mode runs");
    assert_eq!(meanings.len(), 1);
    assert!(warning);
}

#[test]
fn configure_rejects_an_invalid_configuration() {
    let bad = config::Main {
        intercept: config::Intercept::Wrapper { executables: vec![String::new()] },
        output: config::Output::Semantic,
    };
    assert!(Application::configure(semantic_mode(), bad).is_err());
}

#[test]
fn capture_modes_yield_nothing_here() {
    let intercept = Mode::Intercept {
        input: BuildCommand { arguments: strings(&["make", "all"]) },
        output: BuildEvents { file_name: "events.db".to_string() },
    };
    let app = Application::configure(intercept, plain_config(&[], &[])).unwrap();
    assert!(app.run(Vec::new()).is_none());
}
