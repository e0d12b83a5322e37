//! Configuration values consumed by the pipeline. Loading them from disk is
//! out of scope; they arrive as plain values.

use vstd::prelude::*;

verus! {

/// Which compiler-like executions are kept out of the compilation database.
#[derive(Debug, Clone, PartialEq)]
pub struct CompilerFilter {
    /// Executables excluded by exact path.
    pub with_paths: Vec<String>,
    /// Executions excluded when any argument contains one of these substrings.
    pub with_arguments: Vec<String>,
}

/// The configured flag-rewrite policy for recognized compiler passes.
#[derive(Debug, Clone, PartialEq)]
pub struct FlagTransform {
    /// Appended, in this order, at the end of every compile pass's flags.
    pub arguments_to_add: Vec<String>,
    /// Every exact-match occurrence of these flags is removed.
    pub arguments_to_remove: Vec<String>,
}

/// How executions are captured.
#[derive(Debug, Clone, PartialEq)]
pub enum Intercept {
    /// Wrapper executables stand in for the listed compilers.
    Wrapper { executables: Vec<String> },
    /// Captures through library preloading; adds no recognized compilers.
    Preload,
}

/// What the run emits.
#[derive(Debug, Clone, PartialEq)]
pub enum Output {
    /// A compilation database, with filtering and flag rewriting.
    Clang { filter: CompilerFilter, transform: FlagTransform },
    /// Raw semantic output, with neither filtering nor rewriting.
    Semantic,
}

/// The whole configuration of one run.
#[derive(Debug, Clone, PartialEq)]
pub struct Main {
    pub intercept: Intercept,
    pub output: Output,
}

/// Every configured pattern in the sequence is non-empty.
pub open spec fn all_nonempty(xs: Seq<Seq<char>>) -> bool {
    forall|i: int| 0 <= i < xs.len() ==> xs[i].len() > 0
}

/// Extra executables recognized as compilers under this capture mode.
pub open spec fn spec_compilers_to_recognize(c: Intercept) -> Seq<Seq<char>> {
    match c {
        Intercept::Wrapper { executables } => executables.deep_view(),
        Intercept::Preload => Seq::empty(),
    }
}

/// Executable paths excluded from recognition under this output mode.
pub open spec fn spec_compilers_to_exclude(c: Output) -> Seq<Seq<char>> {
    match c {
        Output::Clang { filter, .. } => filter.with_paths.deep_view(),
        Output::Semantic => Seq::empty(),
    }
}

/// Argument substrings excluding an execution under this output mode.
pub open spec fn spec_arguments_to_exclude(c: Output) -> Seq<Seq<char>> {
    match c {
        Output::Clang { filter, .. } => filter.with_arguments.deep_view(),
        Output::Semantic => Seq::empty(),
    }
}

} // verus!
