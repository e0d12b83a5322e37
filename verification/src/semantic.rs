//! Recognizer: a pure classifier from one captured execution to its semantic
//! meaning, independent of every other execution.
//!
//! Ordered filters run before any classification, and exclusions always win
//! over inclusions: an excluded path or an excluded argument substring makes
//! the execution not recognized, whatever else would have matched.

use vstd::prelude::*;
use vstd::string::{StrSliceExecFns, StringExecFns};
use crate::{Execution, ExecutionModel};
use crate::config;

verus! {

/// One semantic sub-operation of a compiler call. A single invocation may
/// compile several files and may also link, so it may yield several passes.
#[derive(Debug, Clone, PartialEq)]
pub enum CompilerPass {
    /// Compiles one source file.
    Compile { source: String, output: Option<String>, flags: Vec<String> },
    /// Links; carries no per-file flags.
    Link { output: Option<String> },
}

/// Mathematical value of a [`CompilerPass`].
pub enum PassModel {
    Compile { source: Seq<char>, output: Option<Seq<char>>, flags: Seq<Seq<char>> },
    Link { output: Option<Seq<char>> },
}

impl View for CompilerPass {
    type V = PassModel;

    open spec fn view(&self) -> PassModel {
        match self {
            CompilerPass::Compile { source, output, flags } => PassModel::Compile {
                source: source@,
                output: match output {
                    Some(o) => Some(o@),
                    None => None,
                },
                flags: flags.deep_view(),
            },
            CompilerPass::Link { output } => PassModel::Link {
                output: match output {
                    Some(o) => Some(o@),
                    None => None,
                },
            },
        }
    }
}

impl DeepView for CompilerPass {
    type V = PassModel;

    open spec fn deep_view(&self) -> PassModel {
        self@
    }
}

/// Classification outcome of one execution.
#[derive(Debug, Clone, PartialEq)]
pub enum Meaning {
    /// A compiler call that performs no compilation relevant to the
    /// database, such as a version query.
    Ignored,
    /// A compiler call, decomposed into its passes, in invocation order.
    Compiler { compiler: String, working_dir: String, passes: Vec<CompilerPass> },
}

/// Mathematical value of a [`Meaning`].
pub enum MeaningModel {
    Ignored,
    Compiler { compiler: Seq<char>, working_dir: Seq<char>, passes: Seq<PassModel> },
}

impl View for Meaning {
    type V = MeaningModel;

    open spec fn view(&self) -> MeaningModel {
        match self {
            Meaning::Ignored => MeaningModel::Ignored,
            Meaning::Compiler { compiler, working_dir, passes } => MeaningModel::Compiler {
                compiler: compiler@,
                working_dir: working_dir@,
                passes: passes.deep_view(),
            },
        }
    }
}

impl DeepView for Meaning {
    type V = MeaningModel;

    open spec fn deep_view(&self) -> MeaningModel {
        self@
    }
}

/// What the recognizer says of one execution.
#[derive(Debug, PartialEq)]
pub enum RecognitionResult {
    /// The executable is not compiler-like: the common case.
    NotRecognized,
    /// Compiler-like: either a meaning, or a soft failure with its reason.
    Recognized(Result<Meaning, String>),
}

/// Mathematical value of a [`RecognitionResult`].
pub enum RecognitionModel {
    NotRecognized,
    Recognized(Result<MeaningModel, Seq<char>>),
}

impl View for RecognitionResult {
    type V = RecognitionModel;

    open spec fn view(&self) -> RecognitionModel {
        match self {
            RecognitionResult::NotRecognized => RecognitionModel::NotRecognized,
            RecognitionResult::Recognized(Ok(m)) => RecognitionModel::Recognized(Ok(m@)),
            RecognitionResult::Recognized(Err(e)) => RecognitionModel::Recognized(Err(e@)),
        }
    }
}

// ------------------------------------------------------------------
// Verified string utilities
// ------------------------------------------------------------------

/// Character-for-character string equality.
pub fn str_eq(a: &str, b: &str) -> (r: bool)
    ensures
        r == (a@ == b@),
{
    let la = a.unicode_len();
    let lb = b.unicode_len();
    if la != lb {
        return false;
    }
    let mut i: usize = 0;
    while i < la
        invariant
            0 <= i <= la,
            la == a@.len() && la == b@.len(),
            forall|j: int| 0 <= j < i ==> a@[j] == b@[j],
        decreases la - i,
    {
        if a.get_char(i) != b.get_char(i) {
            return false;
        }
        i = i + 1;
    }
    assert(a@ =~= b@);
    true
}

/// `s` ends with the characters of `x`.
pub open spec fn spec_ends_with(s: Seq<char>, x: Seq<char>) -> bool {
    x.len() <= s.len() && s.subrange(s.len() - x.len(), s.len() as int) == x
}

pub fn ends_with(s: &str, x: &str) -> (r: bool)
    ensures
        r == spec_ends_with(s@, x@),
{
    let ls = s.unicode_len();
    let lx = x.unicode_len();
    if lx > ls {
        return false;
    }
    let off = ls - lx;
    let mut i: usize = 0;
    while i < lx
        invariant
            0 <= i <= lx,
            lx <= ls,
            off == ls - lx,
            ls == s@.len() && lx == x@.len(),
            forall|j: int| 0 <= j < i ==> s@[off + j] == x@[j],
        decreases lx - i,
    {
        if s.get_char(off + i) != x.get_char(i) {
            assert(s@.subrange(s@.len() - x@.len(), s@.len() as int)[i as int] != x@[i as int]);
            return false;
        }
        i = i + 1;
    }
    assert(s@.subrange(s@.len() - x@.len(), s@.len() as int) =~= x@);
    true
}

/// `needle` occurs contiguously inside `hay`.
pub open spec fn spec_is_substring(hay: Seq<char>, needle: Seq<char>) -> bool {
    exists|i: int|
        0 <= i <= hay.len() - needle.len() && #[trigger] hay.subrange(i, i + needle.len())
            == needle
}

pub fn is_substring(hay: &str, needle: &str) -> (r: bool)
    ensures
        r == spec_is_substring(hay@, needle@),
{
    let lh = hay.unicode_len();
    let ln = needle.unicode_len();
    if ln > lh {
        return false;
    }
    if ln == 0 {
        assert(hay@.subrange(0, 0 + needle@.len() as int) =~= needle@);
        assert(spec_is_substring(hay@, needle@));
        return true;
    }
    let last = lh - ln;
    let mut i: usize = 0;
    while i <= last
        invariant
            0 <= i <= last + 1,
            last == lh - ln,
            0 < ln <= lh,
            lh == hay@.len() && ln == needle@.len(),
            forall|k: int|
                0 <= k < i ==> #[trigger] hay@.subrange(k, k + needle@.len()) != needle@,
        decreases last + 1 - i,
    {
        let mut j: usize = 0;
        let mut matched = true;
        while matched && j < ln
            invariant
                0 <= j <= ln,
                0 <= i <= last,
                last == lh - ln,
                lh == hay@.len() && ln == needle@.len(),
                matched ==> forall|k: int| 0 <= k < j ==> hay@[i + k] == needle@[k],
                !matched ==> hay@.subrange(i as int, i + needle@.len()) != needle@,
            decreases (if matched { 1int } else { 0int }), ln - j,
        {
            if hay.get_char(i + j) != needle.get_char(j) {
                assert(hay@.subrange(i as int, i + needle@.len())[j as int] != needle@[j as int]);
                matched = false;
            } else {
                j = j + 1;
            }
        }
        if matched {
            assert(hay@.subrange(i as int, i + needle@.len()) =~= needle@);
            return true;
        }
        i = i + 1;
    }
    false
}

// ------------------------------------------------------------------
// The built-in classification rules
// ------------------------------------------------------------------

/// `exe` names the compiler `name`: it is `name` itself or a path ending in
/// `/name`.
pub open spec fn spec_names_compiler(exe: Seq<char>, name: Seq<char>) -> bool {
    exe == name || spec_ends_with(exe, seq!['/'] + name)
}

fn names_compiler(exe: &str, name: &str, slash_name: &str) -> (r: bool)
    requires
        slash_name@ == seq!['/'] + name@,
    ensures
        r == spec_names_compiler(exe@, name@),
{
    str_eq(exe, name) || ends_with(exe, slash_name)
}

/// The executable is one of the known compiler identities.
pub open spec fn spec_is_known_compiler(exe: Seq<char>) -> bool {
    ||| spec_names_compiler(exe, "cc"@)
    ||| spec_names_compiler(exe, "c++"@)
    ||| spec_names_compiler(exe, "gcc"@)
    ||| spec_names_compiler(exe, "g++"@)
    ||| spec_names_compiler(exe, "clang"@)
    ||| spec_names_compiler(exe, "clang++"@)
}

pub fn is_known_compiler(exe: &str) -> (r: bool)
    ensures
        r == spec_is_known_compiler(exe@),
{
    proof {
        reveal_strlit("cc");
        reveal_strlit("/cc");
        reveal_strlit("c++");
        reveal_strlit("/c++");
        reveal_strlit("gcc");
        reveal_strlit("/gcc");
        reveal_strlit("g++");
        reveal_strlit("/g++");
        reveal_strlit("clang");
        reveal_strlit("/clang");
        reveal_strlit("clang++");
        reveal_strlit("/clang++");
        assert("/cc"@ =~= seq!['/'] + "cc"@);
        assert("/c++"@ =~= seq!['/'] + "c++"@);
        assert("/gcc"@ =~= seq!['/'] + "gcc"@);
        assert("/g++"@ =~= seq!['/'] + "g++"@);
        assert("/clang"@ =~= seq!['/'] + "clang"@);
        assert("/clang++"@ =~= seq!['/'] + "clang++"@);
    }
    names_compiler(exe, "cc", "/cc") || names_compiler(exe, "c++", "/c++") || names_compiler(
        exe,
        "gcc",
        "/gcc",
    ) || names_compiler(exe, "g++", "/g++") || names_compiler(exe, "clang", "/clang")
        || names_compiler(exe, "clang++", "/clang++")
}

/// The argument marks a call that compiles nothing relevant: a version or
/// machine query, or pure dependency generation.
pub open spec fn spec_is_query(a: Seq<char>) -> bool {
    ||| a == "--version"@
    ||| a == "--help"@
    ||| a == "-dumpversion"@
    ||| a == "-dumpmachine"@
    ||| a == "-M"@
    ||| a == "-MM"@
}

pub fn is_query_arg(a: &str) -> (r: bool)
    ensures
        r == spec_is_query(a@),
{
    str_eq(a, "--version") || str_eq(a, "--help") || str_eq(a, "-dumpversion") || str_eq(
        a,
        "-dumpmachine",
    ) || str_eq(a, "-M") || str_eq(a, "-MM")
}

/// The argument names a source file, by its extension.
pub open spec fn spec_is_source(a: Seq<char>) -> bool {
    ||| spec_ends_with(a, ".c"@)
    ||| spec_ends_with(a, ".cc"@)
    ||| spec_ends_with(a, ".cpp"@)
    ||| spec_ends_with(a, ".cxx"@)
}

pub fn is_source_arg(a: &str) -> (r: bool)
    ensures
        r == spec_is_source(a@),
{
    ends_with(a, ".c") || ends_with(a, ".cc") || ends_with(a, ".cpp") || ends_with(a, ".cxx")
}

// ------------------------------------------------------------------
// Argument decomposition
// ------------------------------------------------------------------

/// The argument list ends inside an `-o` that still awaits its value, so it
/// cannot be decomposed.
pub open spec fn spec_malformed(args: Seq<Seq<char>>) -> bool
    decreases args.len(),
{
    if args.len() == 0 {
        false
    } else if args[0] == "-o"@ {
        args.len() == 1 || spec_malformed(args.subrange(2, args.len() as int))
    } else {
        spec_malformed(args.drop_first())
    }
}

/// The flags of the invocation: every argument except the source files. An
/// `-o` and its value both stay among the flags, in place.
pub open spec fn spec_split(args: Seq<Seq<char>>) -> (Seq<Seq<char>>, Seq<Seq<char>>)
    decreases args.len(),
{
    if args.len() == 0 {
        (Seq::empty(), Seq::empty())
    } else if args[0] == "-o"@ && args.len() >= 2 {
        let rest = spec_split(args.subrange(2, args.len() as int));
        (seq![args[0], args[1]] + rest.0, rest.1)
    } else if spec_is_source(args[0]) {
        let rest = spec_split(args.drop_first());
        (rest.0, seq![args[0]] + rest.1)
    } else {
        let rest = spec_split(args.drop_first());
        (seq![args[0]] + rest.0, rest.1)
    }
}

/// The output named by the first `-o`, if any.
pub open spec fn spec_output(args: Seq<Seq<char>>) -> Option<Seq<char>>
    decreases args.len(),
{
    if args.len() == 0 {
        None
    } else if args[0] == "-o"@ {
        if args.len() >= 2 {
            Some(args[1])
        } else {
            None
        }
    } else {
        spec_output(args.drop_first())
    }
}

/// Splits an argument list into flags, sources and output, or reports that
/// it cannot be decomposed.
pub fn decompose(args: &Vec<String>) -> (r: Option<(Vec<String>, Vec<String>, Option<String>)>)
    ensures
        match r {
            Some((flags, sources, output)) => {
                &&& !spec_malformed(args.deep_view())
                &&& flags.deep_view() == spec_split(args.deep_view()).0
                &&& sources.deep_view() == spec_split(args.deep_view()).1
                &&& (match output {
                    Some(o) => spec_output(args.deep_view()) == Some(o@),
                    None => spec_output(args.deep_view()) is None,
                })
            },
            None => spec_malformed(args.deep_view()),
        },
{
    let ghost all = args.deep_view();
    let n = args.len();
    let mut flags: Vec<String> = Vec::new();
    let mut sources: Vec<String> = Vec::new();
    let mut output: Option<String> = None;
    let mut i: usize = 0;
    proof {
        assert(all.subrange(0, all.len() as int) =~= all);
    }
    while i < n
        invariant
            0 <= i <= n,
            n == all.len(),
            all == args.deep_view(),
            spec_split(all).0 == flags.deep_view() + spec_split(
                all.subrange(i as int, all.len() as int),
            ).0,
            spec_split(all).1 == sources.deep_view() + spec_split(
                all.subrange(i as int, all.len() as int),
            ).1,
            spec_malformed(all) == spec_malformed(all.subrange(i as int, all.len() as int)),
            match output {
                Some(o) => spec_output(all) == Some(o@),
                None => spec_output(all) == spec_output(
                    all.subrange(i as int, all.len() as int),
                ),
            },
        decreases n - i,
    {
        let ghost suffix = all.subrange(i as int, all.len() as int);
        let ghost fl = flags.deep_view();
        let ghost sr = sources.deep_view();
        let a = &args[i];
        assert(a@ == suffix[0]);
        if str_eq(a.as_str(), "-o") {
            proof {
                reveal_strlit("-o");
            }
            if i + 1 == n {
                proof {
                    assert(suffix.len() == 1);
                    assert(spec_malformed(suffix));
                }
                return None;
            }
            let v = &args[i + 1];
            assert(v@ == suffix[1]);
            flags.push(a.clone());
            flags.push(v.clone());
            if output.is_none() {
                output = Some(v.clone());
            }
            proof {
                assert(suffix.subrange(2, suffix.len() as int) =~= all.subrange(
                    i + 2,
                    all.len() as int,
                ));
                assert(flags.deep_view() =~= fl + seq![a@, v@]);
                assert(fl + (seq![a@, v@] + spec_split(all.subrange(i + 2, all.len() as int)).0)
                    =~= (fl + seq![a@, v@]) + spec_split(all.subrange(i + 2, all.len() as int)).0);
            }
            i = i + 2;
        } else {
            proof {
                reveal_strlit("-o");
                assert(suffix[0] != "-o"@);
                assert(suffix.drop_first() =~= all.subrange(i + 1, all.len() as int));
            }
            if is_source_arg(a.as_str()) {
                sources.push(a.clone());
                proof {
                    assert(sources.deep_view() =~= sr + seq![a@]);
                    assert(sr + (seq![a@] + spec_split(all.subrange(i + 1, all.len() as int)).1)
                        =~= (sr + seq![a@]) + spec_split(
                        all.subrange(i + 1, all.len() as int),
                    ).1);
                }
            } else {
                flags.push(a.clone());
                proof {
                    assert(flags.deep_view() =~= fl + seq![a@]);
                    assert(fl + (seq![a@] + spec_split(all.subrange(i + 1, all.len() as int)).0)
                        =~= (fl + seq![a@]) + spec_split(
                        all.subrange(i + 1, all.len() as int),
                    ).0);
                }
            }
            i = i + 1;
        }
    }
    proof {
        assert(all.subrange(i as int, all.len() as int).len() == 0);
        assert(flags.deep_view() + spec_split(all.subrange(i as int, all.len() as int)).0
            =~= flags.deep_view());
        assert(sources.deep_view() + spec_split(all.subrange(i as int, all.len() as int)).1
            =~= sources.deep_view());
    }
    Some((flags, sources, output))
}

// ------------------------------------------------------------------
// The recognizer
// ------------------------------------------------------------------

/// Mathematical value of a [`SemanticRecognition`].
pub struct RecognizerModel {
    pub recognize: Seq<Seq<char>>,
    pub exclude_paths: Seq<Seq<char>>,
    pub exclude_args: Seq<Seq<char>>,
}

/// The configured recognizer: known compiler identities plus configured
/// additions, filtered by configured exclusions.
#[derive(Debug, Clone, PartialEq)]
pub struct SemanticRecognition {
    pub compilers_to_recognize: Vec<String>,
    pub compilers_to_exclude: Vec<String>,
    pub compilers_to_exclude_by_arguments: Vec<String>,
}

impl View for SemanticRecognition {
    type V = RecognizerModel;

    open spec fn view(&self) -> RecognizerModel {
        RecognizerModel {
            recognize: self.compilers_to_recognize.deep_view(),
            exclude_paths: self.compilers_to_exclude.deep_view(),
            exclude_args: self.compilers_to_exclude_by_arguments.deep_view(),
        }
    }
}

/// Some argument contains some configured exclusion pattern as a substring.
pub open spec fn spec_excluded_by_args(pats: Seq<Seq<char>>, args: Seq<Seq<char>>) -> bool {
    exists|i: int, j: int|
        0 <= i < args.len() && 0 <= j < pats.len() && spec_is_substring(
            #[trigger] args[i],
            #[trigger] pats[j],
        )
}

/// Some argument is a query that compiles nothing relevant.
pub open spec fn spec_has_query(args: Seq<Seq<char>>) -> bool {
    exists|i: int| 0 <= i < args.len() && spec_is_query(#[trigger] args[i])
}

/// The passes of a decomposed compiler call: one compile pass per source
/// file, in invocation order, each carrying the invocation's flags in their
/// original relative order; and, unless `-c` limits the call to compilation,
/// a final link pass.
pub open spec fn spec_passes(args: Seq<Seq<char>>) -> Seq<PassModel> {
    let flags = spec_split(args).0;
    let sources = spec_split(args).1;
    let output = spec_output(args);
    let compiles = sources.map_values(
        |s: Seq<char>| PassModel::Compile { source: s, output, flags },
    );
    if args.contains("-c"@) {
        compiles
    } else {
        compiles.push(PassModel::Link { output })
    }
}

/// The classification rules, in order: exclusions first (they always win),
/// then compiler identity, then query detection, then decomposition.
pub open spec fn spec_recognize(c: RecognizerModel, x: ExecutionModel) -> RecognitionModel {
    if c.exclude_paths.contains(x.executable) {
        RecognitionModel::NotRecognized
    } else if spec_excluded_by_args(c.exclude_args, x.arguments) {
        RecognitionModel::NotRecognized
    } else if !(c.recognize.contains(x.executable) || spec_is_known_compiler(x.executable)) {
        RecognitionModel::NotRecognized
    } else if spec_has_query(x.arguments) {
        RecognitionModel::Recognized(Ok(MeaningModel::Ignored))
    } else if spec_malformed(x.arguments) {
        RecognitionModel::Recognized(Err("missing value after -o"@))
    } else if spec_split(x.arguments).1.len() == 0 && x.arguments.contains("-c"@) {
        RecognitionModel::Recognized(Ok(MeaningModel::Ignored))
    } else {
        RecognitionModel::Recognized(
            Ok(
                MeaningModel::Compiler {
                    compiler: x.executable,
                    working_dir: x.working_dir,
                    passes: spec_passes(x.arguments),
                },
            ),
        )
    }
}

/// Whether the list holds a string with these characters.
pub fn contains_string(v: &Vec<String>, s: &String) -> (r: bool)
    ensures
        r == v.deep_view().contains(s@),
{
    let mut i: usize = 0;
    while i < v.len()
        invariant
            0 <= i <= v.len(),
            forall|j: int| 0 <= j < i ==> v.deep_view()[j] != s@,
        decreases v.len() - i,
    {
        if v[i] == *s {
            assert(v.deep_view()[i as int] == s@);
            return true;
        }
        i = i + 1;
    }
    assert(!v.deep_view().contains(s@));
    false
}

/// Whether the list holds the given literal.
pub fn contains_lit(v: &Vec<String>, lit: &str) -> (r: bool)
    ensures
        r == v.deep_view().contains(lit@),
{
    let mut i: usize = 0;
    while i < v.len()
        invariant
            0 <= i <= v.len(),
            forall|j: int| 0 <= j < i ==> v.deep_view()[j] != lit@,
        decreases v.len() - i,
    {
        if str_eq(v[i].as_str(), lit) {
            assert(v.deep_view()[i as int] == lit@);
            return true;
        }
        i = i + 1;
    }
    assert(!v.deep_view().contains(lit@));
    false
}

/// Whether any argument contains any configured pattern as a substring.
pub fn excluded_by_arguments(pats: &Vec<String>, args: &Vec<String>) -> (r: bool)
    ensures
        r == spec_excluded_by_args(pats.deep_view(), args.deep_view()),
{
    let mut i: usize = 0;
    while i < args.len()
        invariant
            0 <= i <= args.len(),
            forall|i2: int, j2: int|
                0 <= i2 < i && 0 <= j2 < pats.deep_view().len() ==> !spec_is_substring(
                    #[trigger] args.deep_view()[i2],
                    #[trigger] pats.deep_view()[j2],
                ),
        decreases args.len() - i,
    {
        let mut j: usize = 0;
        while j < pats.len()
            invariant
                0 <= i < args.len(),
                0 <= j <= pats.len(),
                forall|j2: int|
                    0 <= j2 < j ==> !spec_is_substring(
                        args.deep_view()[i as int],
                        #[trigger] pats.deep_view()[j2],
                    ),
            decreases pats.len() - j,
        {
            if is_substring(args[i].as_str(), pats[j].as_str()) {
                assert(spec_is_substring(args.deep_view()[i as int], pats.deep_view()[j as int]));
                return true;
            }
            j = j + 1;
        }
        i = i + 1;
    }
    false
}

/// Whether any argument is a query.
pub fn has_query(args: &Vec<String>) -> (r: bool)
    ensures
        r == spec_has_query(args.deep_view()),
{
    let mut i: usize = 0;
    while i < args.len()
        invariant
            0 <= i <= args.len(),
            forall|j: int| 0 <= j < i ==> !spec_is_query(#[trigger] args.deep_view()[j]),
        decreases args.len() - i,
    {
        if is_query_arg(args[i].as_str()) {
            assert(spec_is_query(args.deep_view()[i as int]));
            return true;
        }
        i = i + 1;
    }
    false
}

/// Copies a list of strings, character for character.
pub fn clone_strings(v: &Vec<String>) -> (r: Vec<String>)
    ensures
        r.deep_view() == v.deep_view(),
{
    let mut out: Vec<String> = Vec::new();
    let mut i: usize = 0;
    while i < v.len()
        invariant
            0 <= i <= v.len(),
            out.deep_view() == v.deep_view().take(i as int),
        decreases v.len() - i,
    {
        let ghost prev = out.deep_view();
        let c = v[i].clone();
        assert(c@ == v.deep_view()[i as int]);
        out.push(c);
        i = i + 1;
        assert(out.deep_view() =~= prev.push(v.deep_view()[i - 1]));
        assert(v.deep_view().take(i as int) =~= prev.push(v.deep_view()[i - 1]));
    }
    assert(v.deep_view().take(v.len() as int) =~= v.deep_view());
    out
}

/// Every configured pattern in the list is non-empty.
pub fn all_nonempty_strings(v: &Vec<String>) -> (r: bool)
    ensures
        r == config::all_nonempty(v.deep_view()),
{
    let mut i: usize = 0;
    while i < v.len()
        invariant
            0 <= i <= v.len(),
            forall|j: int| 0 <= j < i ==> #[trigger] v.deep_view()[j].len() > 0,
        decreases v.len() - i,
    {
        if v[i].as_str().is_empty() {
            assert(v.deep_view()[i as int].len() == 0);
            return false;
        }
        i = i + 1;
    }
    true
}

/// The view of an optional string.
pub open spec fn spec_opt_str(o: Option<String>) -> Option<Seq<char>> {
    match o {
        Some(s) => Some(s@),
        None => None,
    }
}

/// Copies an optional string.
pub fn clone_opt_str(o: &Option<String>) -> (r: Option<String>)
    ensures
        spec_opt_str(r) == spec_opt_str(*o),
{
    match o {
        Some(s) => Some(s.clone()),
        None => None,
    }
}

/// The whole configuration is valid: no configured pattern is empty.
pub open spec fn spec_valid_config(c: config::Main) -> bool {
    &&& config::all_nonempty(config::spec_compilers_to_recognize(c.intercept))
    &&& config::all_nonempty(config::spec_compilers_to_exclude(c.output))
    &&& config::all_nonempty(config::spec_arguments_to_exclude(c.output))
}

impl SemanticRecognition {
    /// Builds the recognizer from the configuration. An empty configured
    /// pattern is a configuration error, fatal before any event is
    /// processed.
    pub fn try_from(config: &config::Main) -> (r: Result<SemanticRecognition, String>)
        ensures
            match r {
                Ok(rec) => {
                    &&& spec_valid_config(*config)
                    &&& rec@.recognize == config::spec_compilers_to_recognize(config.intercept)
                    &&& rec@.exclude_paths == config::spec_compilers_to_exclude(config.output)
                    &&& rec@.exclude_args == config::spec_arguments_to_exclude(config.output)
                },
                Err(_) => !spec_valid_config(*config),
            },
    {
        let compilers_to_recognize: Vec<String> = match &config.intercept {
            config::Intercept::Wrapper { executables } => clone_strings(executables),
            config::Intercept::Preload => Vec::new(),
        };
        let compilers_to_exclude: Vec<String> = match &config.output {
            config::Output::Clang { filter, .. } => clone_strings(&filter.with_paths),
            config::Output::Semantic => Vec::new(),
        };
        let compilers_to_exclude_by_arguments: Vec<String> = match &config.output {
            config::Output::Clang { filter, .. } => clone_strings(&filter.with_arguments),
            config::Output::Semantic => Vec::new(),
        };
        proof {
            assert(compilers_to_recognize.deep_view() =~= config::spec_compilers_to_recognize(
                config.intercept,
            ));
            assert(compilers_to_exclude.deep_view() =~= config::spec_compilers_to_exclude(
                config.output,
            ));
            assert(compilers_to_exclude_by_arguments.deep_view()
                =~= config::spec_arguments_to_exclude(config.output));
        }
        if !all_nonempty_strings(&compilers_to_recognize) || !all_nonempty_strings(
            &compilers_to_exclude,
        ) || !all_nonempty_strings(&compilers_to_exclude_by_arguments) {
            return Err(String::from_str("configuration holds an empty pattern"));
        }
        Ok(
            SemanticRecognition {
                compilers_to_recognize,
                compilers_to_exclude,
                compilers_to_exclude_by_arguments,
            },
        )
    }

    /// Classifies one execution, independent of every other: a pure function
    /// of the execution and this configuration.
    pub fn recognize(&self, execution: &Execution) -> (r: RecognitionResult)
        ensures
            r@ == spec_recognize(self@, execution@),
    {
        if contains_string(&self.compilers_to_exclude, &execution.executable) {
            return RecognitionResult::NotRecognized;
        }
        if excluded_by_arguments(&self.compilers_to_exclude_by_arguments, &execution.arguments) {
            return RecognitionResult::NotRecognized;
        }
        let known = contains_string(&self.compilers_to_recognize, &execution.executable)
            || is_known_compiler(execution.executable.as_str());
        if !known {
            return RecognitionResult::NotRecognized;
        }
        if has_query(&execution.arguments) {
            return RecognitionResult::Recognized(Ok(Meaning::Ignored));
        }
        let ghost argsdv = execution.arguments.deep_view();
        match decompose(&execution.arguments) {
            None => RecognitionResult::Recognized(
                Err(String::from_str("missing value after -o")),
            ),
            Some((flags, sources, output)) => {
                let has_c = contains_lit(&execution.arguments, "-c");
                proof {
                    reveal_strlit("-c");
                }
                if sources.len() == 0 && has_c {
                    return RecognitionResult::Recognized(Ok(Meaning::Ignored));
                }
                let mut passes: Vec<CompilerPass> = Vec::new();
                let ghost fl = flags.deep_view();
                let ghost out_model = spec_opt_str(output);
                let ghost compiles = sources.deep_view().map_values(
                    |s: Seq<char>| PassModel::Compile { source: s, output: out_model, flags: fl },
                );
                let mut i: usize = 0;
                while i < sources.len()
                    invariant
                        0 <= i <= sources.len(),
                        fl == flags.deep_view(),
                        out_model == spec_opt_str(output),
                        compiles == sources.deep_view().map_values(
                            |s: Seq<char>|
                                PassModel::Compile { source: s, output: out_model, flags: fl },
                        ),
                        passes.deep_view() == compiles.take(i as int),
                    decreases sources.len() - i,
                {
                    let ghost prev = passes.deep_view();
                    passes.push(
                        CompilerPass::Compile {
                            source: sources[i].clone(),
                            output: clone_opt_str(&output),
                            flags: clone_strings(&flags),
                        },
                    );
                    i = i + 1;
                    proof {
                        assert(passes.deep_view() =~= prev.push(compiles[i - 1]));
                        assert(compiles.take(i as int) =~= prev.push(compiles[i - 1]));
                    }
                }
                assert(compiles.take(sources.len() as int) =~= compiles);
                if !has_c {
                    let ghost prev = passes.deep_view();
                    passes.push(CompilerPass::Link { output });
                    assert(passes.deep_view() =~= prev.push(PassModel::Link { output: out_model }));
                }
                let result = RecognitionResult::Recognized(
                    Ok(
                        Meaning::Compiler {
                            compiler: execution.executable.clone(),
                            working_dir: execution.working_dir.clone(),
                            passes,
                        },
                    ),
                );
                assert(result@ == spec_recognize(self@, execution@));
                result
            },
        }
    }

    /// Keeps only the compiler meanings: a recognized compiler call passes
    /// through, while everything else (not compiler-like, ignored, or a soft
    /// recognition failure) yields nothing and the run continues.
    pub fn apply(&self, execution: Execution) -> (r: Option<Meaning>)
        ensures
            match spec_recognize(self@, execution@) {
                RecognitionModel::Recognized(res) => match res {
                    Ok(m) => if m is Compiler {
                        r matches Some(k) && k@ == m
                    } else {
                        r is None
                    },
                    Err(_) => r is None,
                },
                RecognitionModel::NotRecognized => r is None,
            },
    {
        match self.recognize(&execution) {
            RecognitionResult::Recognized(Ok(Meaning::Ignored)) => None,
            RecognitionResult::Recognized(Ok(m)) => Some(m),
            RecognitionResult::Recognized(Err(_)) => None,
            RecognitionResult::NotRecognized => None,
        }
    }
}

} // verus!
