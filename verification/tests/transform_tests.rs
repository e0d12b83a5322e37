use bear::config;
use bear::semantic::{CompilerPass, Meaning};
use bear::transform::SemanticTransform;

fn strings(xs: &[&str]) -> Vec<String> {
    xs.iter().map(|x| x.to_string()).collect()
}

fn rewrite(add: &[&str], remove: &[&str]) -> SemanticTransform {
    SemanticTransform::Transform {
        arguments_to_add: strings(add),
        arguments_to_remove: strings(remove),
    }
}

fn compile(source: &str, output: Option<&str>, flags: &[&str]) -> CompilerPass {
    CompilerPass::Compile {
        source: source.to_string(),
        output: output.map(|o| o.to_string()),
        flags: strings(flags),
    }
}

#[test]
fn scenario_remove_then_add() {
    let t = rewrite(&["-DFOO"], &["-Wall"]);
    let pass = compile("a.c", None, &["-c", "-Wall", "a.c"]);
    match t.transform_pass(pass) {
        CompilerPass::Compile { flags, .. } => {
            assert_eq!(flags, strings(&["-c", "a.c", "-DFOO"]));
        }
        other => panic!("expected a compile pass, got {:?}", other),
    }
}

#[test]
fn removing_an_absent_flag_is_a_noop() {
    let t = rewrite(&[], &["-Wextra"]);
    let pass = compile("a.c", None, &["-c", "-Wall", "a.c"]);
    match t.transform_pass(pass) {
        CompilerPass::Compile { flags, .. } => {
            assert_eq!(flags, strings(&["-c", "-Wall", "a.c"]));
        }
        other => panic!("expected a compile pass, got {:?}", other),
    }
}

#[test]
fn removing_a_repeated_flag_removes_every_occurrence() {
    let t = rewrite(&[], &["-v"]);
    let pass = compile("a.c", None, &["-v", "-c", "-v", "a.c", "-v"]);
    match t.transform_pass(pass) {
        CompilerPass::Compile { flags, .. } => {
            assert_eq!(flags, strings(&["-c", "a.c"]));
        }
        other => panic!("expected a compile pass, got {:?}", other),
    }
}

#[test]
fn rewrite_with_nothing_to_add_is_idempotent() {
    let t = rewrite(&[], &["-Wall"]);
    let once = t.transform_pass(compile("a.c", None, &["-c", "-Wall", "a.c"]));
    let twice = t.transform_pass(once.clone());
    assert_eq!(twice, once);
}

#[test]
fn link_pass_passes_through_unchanged() {
    let t = rewrite(&["-DFOO"], &["-Wall"]);
    let pass = CompilerPass::Link { output: Some("a.out".to_string()) };
    assert_eq!(t.transform_pass(pass.clone()), pass);
}

#[test]
fn ignored_meaning_passes_through_unchanged() {
    let t = rewrite(&["-DFOO"], &["-Wall"]);
    assert_eq!(t.apply(Meaning::Ignored), Meaning::Ignored);
}

#[test]
fn multi_pass_meaning_keeps_count_order_source_and_output() {
    let t = rewrite(&["-DFOO"], &["-Wall"]);
    let m = Meaning::Compiler {
        compiler: "/usr/bin/cc".to_string(),
        working_dir: "/proj".to_string(),
        passes: vec![
            compile("a.c", Some("a.o"), &["-Wall", "-c"]),
            compile("b.c", Some("b.o"), &["-c"]),
            CompilerPass::Link { output: Some("a.out".to_string()) },
        ],
    };
    match t.apply(m) {
        Meaning::Compiler { compiler, working_dir, passes } => {
            assert_eq!(compiler, "/usr/bin/cc");
            assert_eq!(working_dir, "/proj");
            assert_eq!(passes.len(), 3);
            match &passes[0] {
                CompilerPass::Compile { source, output, flags } => {
                    assert_eq!(source, "a.c");
                    assert_eq!(output.as_deref(), Some("a.o"));
                    assert_eq!(*flags, strings(&["-c", "-DFOO"]));
                }
                other => panic!("expected a compile pass, got {:?}", other),
            }
            match &passes[1] {
                CompilerPass::Compile { source, output, flags } => {
                    assert_eq!(source, "b.c");
                    assert_eq!(output.as_deref(), Some("b.o"));
                    assert_eq!(*flags, strings(&["-c", "-DFOO"]));
                }
                other => panic!("expected a compile pass, got {:?}", other),
            }
            match &passes[2] {
                CompilerPass::Link { output } => assert_eq!(output.as_deref(), Some("a.out")),
                other => panic!("expected a link pass, got {:?}", other),
            }
        }
        other => panic!("expected a compiler meaning, got {:?}", other),
    }
}

#[test]
fn no_transform_leaves_a_meaning_alone() {
    let t = SemanticTransform::NoTransform;
    let m = Meaning::Compiler {
        compiler: "/usr/bin/cc".to_string(),
        working_dir: "/proj".to_string(),
        passes: vec![compile("a.c", None, &["-c", "-Wall"])],
    };
    assert_eq!(t.apply(m.clone()), m);
}

#[test]
fn policy_comes_from_the_output_configuration() {
    let empty = config::Output::Clang {
        filter: config::CompilerFilter { with_paths: vec![], with_arguments: vec![] },
        transform: config::FlagTransform {
            arguments_to_add: vec![],
            arguments_to_remove: vec![],
        },
    };
    assert_eq!(SemanticTransform::from(&empty), SemanticTransform::NoTransform);
    assert_eq!(
        SemanticTransform::from(&config::Output::Semantic),
        SemanticTransform::NoTransform
    );
    let configured = config::Output::Clang {
        filter: config::CompilerFilter { with_paths: vec![], with_arguments: vec![] },
        transform: config::FlagTransform {
            arguments_to_add: strings(&["-DFOO"]),
            arguments_to_remove: strings(&["-Wall"]),
        },
    };
    assert_eq!(
        SemanticTransform::from(&configured),
        SemanticTransform::Transform {
            arguments_to_add: strings(&["-DFOO"]),
            arguments_to_remove: strings(&["-Wall"]),
        }
    );
}
