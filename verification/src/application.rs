//! The application's modes and the semantic pipeline they compose: event
//! source, recognizer, transformer, in that order.

use vstd::prelude::*;
use crate::config;
use crate::events::{EventFileReader, spec_log_executions, spec_read_log};
use crate::semantic::{SemanticRecognition, RecognizerModel, RecognitionModel, Meaning,
    MeaningModel, spec_recognize, spec_valid_config};
use crate::transform::{SemanticTransform, TransformModel, spec_transform,
    spec_transform_of_config};
use crate::{Execution, ExecutionModel};

verus! {

/// The build command whose execution is to be observed.
#[derive(Debug, Clone, PartialEq)]
pub struct BuildCommand {
    pub arguments: Vec<String>,
}

/// The file holding captured events.
#[derive(Debug, Clone, PartialEq)]
pub struct BuildEvents {
    pub file_name: String,
}

/// The file the compilation database goes to.
#[derive(Debug, Clone, PartialEq)]
pub struct BuildSemantic {
    pub file_name: String,
}

/// The mode of operation, from the command line.
#[derive(Debug, Clone, PartialEq)]
pub enum Mode {
    /// Only capture the build's commands into an event log.
    Intercept { input: BuildCommand, output: BuildEvents },
    /// Only derive meanings from a finished event log.
    Semantic { input: BuildEvents, output: BuildSemantic },
    /// Capture and derive in one run.
    All { input: BuildCommand, output: BuildSemantic },
}

/// The application, configured and validated, ready to run.
pub enum Application {
    /// Captures the build's commands; the capture mechanism itself is the
    /// caller's side.
    Intercept { input: BuildCommand, output: BuildEvents, intercept_config: config::Intercept },
    /// Derives the semantic meaning of captured commands.
    Semantic {
        input: BuildEvents,
        output: BuildSemantic,
        semantic_recognition: SemanticRecognition,
        semantic_transform: SemanticTransform,
    },
    /// Combines both modes.
    All {
        input: BuildCommand,
        output: BuildSemantic,
        intercept_config: config::Intercept,
        output_config: config::Output,
    },
}

/// What one run emits for a finished log: each execution classified, the
/// compiler calls kept in log order, each rewritten under the policy.
pub open spec fn spec_pipeline(
    c: RecognizerModel,
    t: TransformModel,
    xs: Seq<ExecutionModel>,
) -> Seq<MeaningModel>
    decreases xs.len(),
{
    if xs.len() == 0 {
        Seq::empty()
    } else {
        let rest = spec_pipeline(c, t, xs.drop_first());
        match spec_recognize(c, xs[0]) {
            RecognitionModel::Recognized(res) => match res {
                Ok(m) => if m is Compiler {
                    seq![spec_transform(t, m)] + rest
                } else {
                    rest
                },
                Err(_) => rest,
            },
            RecognitionModel::NotRecognized => rest,
        }
    }
}

impl Application {
    /// Validates the configuration and the arguments while building the
    /// state that `run` uses, so problems surface before any event is
    /// processed. Only an invalid configuration is refused, and only the
    /// semantic mode reads it.
    pub fn configure(args: Mode, config: config::Main) -> (r: Result<Application, String>)
        ensures
            match r {
                Ok(app) => match (args, app) {
                    (
                        Mode::Intercept { input: ai, output: ao },
                        Application::Intercept { input, output, intercept_config },
                    ) => input == ai && output == ao && intercept_config == config.intercept,
                    (
                        Mode::Semantic { input: ai, output: ao },
                        Application::Semantic {
                            input,
                            output,
                            semantic_recognition,
                            semantic_transform,
                        },
                    ) => {
                        &&& input == ai
                        &&& output == ao
                        &&& spec_valid_config(config)
                        &&& semantic_recognition@.recognize == config::spec_compilers_to_recognize(
                            config.intercept,
                        )
                        &&& semantic_recognition@.exclude_paths
                            == config::spec_compilers_to_exclude(config.output)
                        &&& semantic_recognition@.exclude_args == config::spec_arguments_to_exclude(
                            config.output,
                        )
                        &&& semantic_transform@ == spec_transform_of_config(config.output)
                    },
                    (
                        Mode::All { input: ai, output: ao },
                        Application::All { input, output, intercept_config, output_config },
                    ) => input == ai && output == ao && intercept_config == config.intercept
                        && output_config == config.output,
                    _ => false,
                },
                Err(_) => args is Semantic && !spec_valid_config(config),
            },
    {
        match args {
            Mode::Intercept { input, output } => {
                let intercept_config = config.intercept;
                Ok(Application::Intercept { input, output, intercept_config })
            },
            Mode::Semantic { input, output } => {
                let semantic_recognition = match SemanticRecognition::try_from(&config) {
                    Ok(rec) => rec,
                    Err(e) => {
                        return Err(e);
                    },
                };
                let semantic_transform = SemanticTransform::from(&config.output);
                Ok(
                    Application::Semantic {
                        input,
                        output,
                        semantic_recognition,
                        semantic_transform,
                    },
                )
            },
            Mode::All { input, output } => {
                let intercept_config = config.intercept;
                let output_config = config.output;
                Ok(Application::All { input, output, intercept_config, output_config })
            },
        }
    }

    /// Runs the semantic pipeline over a finished log: event source, then
    /// recognizer, then transformer, yielding the meanings in log order and
    /// whether the log ended in a partial trailing frame. The capture modes
    /// need the outside world and yield nothing here.
    pub fn run(self, log: Vec<u8>) -> (r: Option<(Vec<Meaning>, bool)>)
        ensures
            match self {
                Application::Semantic { semantic_recognition, semantic_transform, .. } => {
                    &&& r is Some
                    &&& (r matches Some((ms, warning)) ==> ms.deep_view() == spec_pipeline(
                        semantic_recognition@,
                        semantic_transform@,
                        spec_log_executions(log@),
                    ) && warning == spec_read_log(log@, 0).1)
                },
                _ => r is None,
            },
    {
        match self {
            Application::Semantic { semantic_recognition, semantic_transform, .. } => {
                let ghost c = semantic_recognition@;
                let ghost t = semantic_transform@;
                let source = EventFileReader::new(log);
                let (mut execs, warning) = source.generate();
                let ghost all = execs.deep_view();
                let mut out: Vec<Meaning> = Vec::new();
                while execs.len() > 0
                    invariant
                        c == semantic_recognition@,
                        t == semantic_transform@,
                        spec_pipeline(c, t, all) == out.deep_view() + spec_pipeline(
                            c,
                            t,
                            execs.deep_view(),
                        ),
                    decreases execs.len(),
                {
                    let ghost before = execs.deep_view();
                    let ghost out_before = out.deep_view();
                    let x = execs.remove(0);
                    proof {
                        assert(execs.deep_view() =~= before.drop_first());
                    }
                    match semantic_recognition.apply(x) {
                        Some(m) => {
                            let rewritten = semantic_transform.apply(m);
                            out.push(rewritten);
                            proof {
                                assert(out.deep_view() =~= out_before.push(rewritten@));
                                assert(out_before + (seq![rewritten@] + spec_pipeline(
                                    c,
                                    t,
                                    before.drop_first(),
                                )) =~= out_before.push(rewritten@) + spec_pipeline(
                                    c,
                                    t,
                                    before.drop_first(),
                                ));
                            }
                        },
                        None => {
                        },
                    }
                }
                proof {
                    assert(spec_pipeline(c, t, execs.deep_view()) == Seq::<MeaningModel>::empty());
                    assert(out.deep_view() + Seq::<MeaningModel>::empty() =~= out.deep_view());
                }
                Some((out, warning))
            },
            Application::Intercept { .. } => None,
            Application::All { .. } => None,
        }
    }
}

} // verus!
