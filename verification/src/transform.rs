//! Transformer: rewrites a recognized meaning's compiler flags per the
//! configured policy, without altering which files or passes exist.
//!
//! The rewrite applies per compile pass: every exact-match occurrence of a
//! flag to remove is dropped (a stable filter — the surviving flags keep
//! their relative order), then the flags to add are appended at the end, in
//! configured order. Link passes carry no per-file flags and pass through
//! unchanged, as do ignored meanings: applying the rewrite there never fails.

use vstd::prelude::*;
use crate::config;
use crate::semantic::{CompilerPass, Meaning, MeaningModel, PassModel, clone_strings,
    contains_string};

verus! {

/// Mathematical value of a [`SemanticTransform`].
pub enum TransformModel {
    NoTransform,
    Transform { add: Seq<Seq<char>>, remove: Seq<Seq<char>> },
}

/// The configured flag-rewrite policy: a no-op, or a remove-then-add rewrite.
#[derive(Debug, Clone, PartialEq)]
pub enum SemanticTransform {
    NoTransform,
    Transform { arguments_to_add: Vec<String>, arguments_to_remove: Vec<String> },
}

impl View for SemanticTransform {
    type V = TransformModel;

    open spec fn view(&self) -> TransformModel {
        match self {
            SemanticTransform::NoTransform => TransformModel::NoTransform,
            SemanticTransform::Transform { arguments_to_add, arguments_to_remove } =>
                TransformModel::Transform {
                add: arguments_to_add.deep_view(),
                remove: arguments_to_remove.deep_view(),
            },
        }
    }
}

/// The rewrite of one flag list: every exact-match occurrence of a flag in
/// `remove` is dropped, keeping the survivors' relative order, then all of
/// `add` is appended at the end, in order.
pub open spec fn spec_rewrite_flags(
    flags: Seq<Seq<char>>,
    remove: Seq<Seq<char>>,
    add: Seq<Seq<char>>,
) -> Seq<Seq<char>> {
    flags.filter(|f: Seq<char>| !remove.contains(f)) + add
}

/// The rewrite of one pass: only a compile pass's flags change.
pub open spec fn spec_transform_pass(t: TransformModel, p: PassModel) -> PassModel {
    match t {
        TransformModel::NoTransform => p,
        TransformModel::Transform { add, remove } => match p {
            PassModel::Compile { source, output, flags } => PassModel::Compile {
                source,
                output,
                flags: spec_rewrite_flags(flags, remove, add),
            },
            PassModel::Link { output } => PassModel::Link { output },
        },
    }
}

/// The rewrite of one meaning: only a compiler meaning's passes change, each
/// rewritten in place, none added, none dropped, none reordered.
pub open spec fn spec_transform(t: TransformModel, m: MeaningModel) -> MeaningModel {
    match t {
        TransformModel::NoTransform => m,
        TransformModel::Transform { .. } => match m {
            MeaningModel::Ignored => m,
            MeaningModel::Compiler { compiler, working_dir, passes } => MeaningModel::Compiler {
                compiler,
                working_dir,
                passes: passes.map_values(|p: PassModel| spec_transform_pass(t, p)),
            },
        },
    }
}

/// The policy configured by this output mode: a rewrite only where the
/// output is a compilation database and either list is non-empty.
pub open spec fn spec_transform_of_config(c: config::Output) -> TransformModel {
    match c {
        config::Output::Clang { transform, .. } => {
            if transform.arguments_to_add@.len() == 0 && transform.arguments_to_remove@.len()
                == 0 {
                TransformModel::NoTransform
            } else {
                TransformModel::Transform {
                    add: transform.arguments_to_add.deep_view(),
                    remove: transform.arguments_to_remove.deep_view(),
                }
            }
        },
        config::Output::Semantic => TransformModel::NoTransform,
    }
}

/// Rewrites one flag list under the policy's remove and add lists.
pub fn rewrite_flags(flags: &Vec<String>, remove: &Vec<String>, add: &Vec<String>) -> (r: Vec<
    String,
>)
    ensures
        r.deep_view() == spec_rewrite_flags(flags.deep_view(), remove.deep_view(), add.deep_view()),
{
    let ghost pred = |f: Seq<char>| !remove.deep_view().contains(f);
    let ghost fdv = flags.deep_view();
    let mut out: Vec<String> = Vec::new();
    proof {
        reveal(Seq::filter);
        assert(fdv.take(0).filter(pred) =~= out.deep_view());
    }
    let mut i: usize = 0;
    while i < flags.len()
        invariant
            0 <= i <= flags.len(),
            fdv == flags.deep_view(),
            pred == (|f: Seq<char>| !remove.deep_view().contains(f)),
            out.deep_view() == fdv.take(i as int).filter(pred),
        decreases flags.len() - i,
    {
        let ghost prev = out.deep_view();
        let keep = !contains_string(remove, &flags[i]);
        if keep {
            let c = flags[i].clone();
            assert(c@ == fdv[i as int]);
            out.push(c);
            assert(out.deep_view() =~= prev.push(fdv[i as int]));
        }
        i = i + 1;
        proof {
            reveal(Seq::filter);
            assert(fdv.take(i as int).drop_last() =~= fdv.take(i - 1));
            assert(fdv.take(i as int).last() == fdv[i - 1]);
        }
    }
    assert(fdv.take(flags.len() as int) =~= fdv);
    let ghost filtered = out.deep_view();
    let mut j: usize = 0;
    while j < add.len()
        invariant
            0 <= j <= add.len(),
            filtered == fdv.filter(pred),
            out.deep_view() == filtered + add.deep_view().take(j as int),
        decreases add.len() - j,
    {
        let ghost prev = out.deep_view();
        let c = add[j].clone();
        assert(c@ == add.deep_view()[j as int]);
        out.push(c);
        j = j + 1;
        proof {
            assert(out.deep_view() =~= prev.push(add.deep_view()[j - 1]));
            assert(filtered + add.deep_view().take(j as int) =~= prev.push(
                add.deep_view()[j - 1],
            ));
        }
    }
    assert(add.deep_view().take(add.len() as int) =~= add.deep_view());
    out
}

impl SemanticTransform {
    /// Reads the rewrite policy out of the output configuration.
    pub fn from(config: &config::Output) -> (r: Self)
        ensures
            r@ == spec_transform_of_config(*config),
    {
        match config {
            config::Output::Clang { transform, .. } => {
                if transform.arguments_to_add.len() == 0 && transform.arguments_to_remove.len()
                    == 0 {
                    SemanticTransform::NoTransform
                } else {
                    SemanticTransform::Transform {
                        arguments_to_add: clone_strings(&transform.arguments_to_add),
                        arguments_to_remove: clone_strings(&transform.arguments_to_remove),
                    }
                }
            },
            config::Output::Semantic => SemanticTransform::NoTransform,
        }
    }

    /// Rewrites one pass. Only a compile pass's flags change; its source and
    /// output stay; a link pass passes through unchanged. Total: no input
    /// can fail.
    pub fn transform_pass(&self, pass: CompilerPass) -> (r: CompilerPass)
        ensures
            r@ == spec_transform_pass(self@, pass@),
    {
        match self {
            SemanticTransform::NoTransform => pass,
            SemanticTransform::Transform { arguments_to_add, arguments_to_remove } => match pass {
                CompilerPass::Compile { source, output, flags } => {
                    let new_flags = rewrite_flags(&flags, arguments_to_remove, arguments_to_add);
                    CompilerPass::Compile { source, output, flags: new_flags }
                },
                CompilerPass::Link { output } => CompilerPass::Link { output },
            },
        }
    }

    /// Rewrites one meaning. Only a compiler meaning changes, and only by
    /// rewriting each of its passes in place: pass count and order, sources
    /// and outputs are untouched, and ignored meanings pass through.
    pub fn apply(&self, input: Meaning) -> (r: Meaning)
        ensures
            r@ == spec_transform(self@, input@),
    {
        let is_rewrite = match self {
            SemanticTransform::Transform { .. } => true,
            SemanticTransform::NoTransform => false,
        };
        if !is_rewrite {
            return input;
        }
        match input {
            Meaning::Ignored => Meaning::Ignored,
            Meaning::Compiler { compiler, working_dir, passes } => {
                let ghost all = passes.deep_view();
                let ghost t = self@;
                let mut rest = passes;
                let mut done: Vec<CompilerPass> = Vec::new();
                while rest.len() > 0
                    invariant
                        t == self@,
                        all.map_values(|p: PassModel| spec_transform_pass(t, p)) == done.deep_view()
                            + rest.deep_view().map_values(
                            |p: PassModel| spec_transform_pass(t, p),
                        ),
                    decreases rest.len(),
                {
                    let ghost before = rest.deep_view();
                    let ghost done_before = done.deep_view();
                    let p = rest.remove(0);
                    let q = self.transform_pass(p);
                    done.push(q);
                    proof {
                        let f = |p: PassModel| spec_transform_pass(t, p);
                        assert(rest.deep_view() =~= before.drop_first());
                        assert(done.deep_view() =~= done_before.push(q@));
                        assert(before.map_values(f) =~= seq![f(before[0])]
                            + before.drop_first().map_values(f));
                        assert(done_before + (seq![f(before[0])] + before.drop_first().map_values(
                            f,
                        )) =~= done_before.push(q@) + before.drop_first().map_values(f));
                    }
                }
                proof {
                    let f = |p: PassModel| spec_transform_pass(t, p);
                    assert(rest.deep_view().map_values(f) =~= Seq::<PassModel>::empty());
                    assert(done.deep_view() + Seq::<PassModel>::empty() =~= done.deep_view());
                }
                Meaning::Compiler { compiler, working_dir, passes: done }
            },
        }
    }
}

// ------------------------------------------------------------------
// Laws of the rewrite
// ------------------------------------------------------------------

/// A filter keeps a sequence whose every element satisfies the predicate.
pub proof fn lemma_filter_all(s: Seq<Seq<char>>, pred: spec_fn(Seq<char>) -> bool)
    requires
        forall|i: int| 0 <= i < s.len() ==> pred(#[trigger] s[i]),
    ensures
        s.filter(pred) == s,
    decreases s.len(),
{
    reveal(Seq::filter);
    if s.len() == 0 {
        assert(s.filter(pred) =~= s);
    } else {
        assert(forall|i: int| 0 <= i < s.drop_last().len() ==> pred(#[trigger] s.drop_last()[i]));
        lemma_filter_all(s.drop_last(), pred);
        assert(pred(s.last()));
        assert(s.drop_last().push(s.last()) =~= s);
    }
}

/// Law: when the flags to add and the flags to remove are disjoint, a second
/// remove stage takes nothing out of an already-rewritten list.
pub proof fn lemma_second_remove_noop(
    flags: Seq<Seq<char>>,
    remove: Seq<Seq<char>>,
    add: Seq<Seq<char>>,
)
    requires
        forall|i: int| 0 <= i < add.len() ==> !remove.contains(#[trigger] add[i]),
    ensures
        spec_rewrite_flags(flags, remove, add).filter(|f: Seq<char>| !remove.contains(f))
            == spec_rewrite_flags(flags, remove, add),
{
    broadcast use vstd::seq_lib::group_filter_ensures;

    let pred = |f: Seq<char>| !remove.contains(f);
    let kept = flags.filter(pred);
    Seq::filter_distributes_over_add(kept, add, pred);
    assert(forall|i: int| 0 <= i < kept.len() ==> pred(#[trigger] kept[i]));
    lemma_filter_all(kept, pred);
    assert(forall|i: int| 0 <= i < add.len() ==> pred(#[trigger] add[i]));
    lemma_filter_all(add, pred);
}

/// Law: applying the rewrite twice with the same configuration equals
/// applying it once, when the flags to add and the flags to remove are
/// disjoint and nothing is added. With a non-empty add list the rewrite is
/// not idempotent: each application appends the additions once more, so
/// those inputs stay out of this law.
pub proof fn lemma_rewrite_idempotent(
    flags: Seq<Seq<char>>,
    remove: Seq<Seq<char>>,
    add: Seq<Seq<char>>,
)
    requires
        forall|i: int| 0 <= i < add.len() ==> !remove.contains(#[trigger] add[i]),
        add.len() == 0,
    ensures
        spec_rewrite_flags(spec_rewrite_flags(flags, remove, add), remove, add)
            == spec_rewrite_flags(flags, remove, add),
{
    let pred = |f: Seq<char>| !remove.contains(f);
    let once = spec_rewrite_flags(flags, remove, add);
    lemma_second_remove_noop(flags, remove, add);
    assert(once.filter(pred) + add =~= once);
}

/// Law: removing flags that occur nowhere in the list is a no-op — the
/// rewrite returns the flags unchanged, with the additions appended.
pub proof fn lemma_remove_absent_noop(
    flags: Seq<Seq<char>>,
    remove: Seq<Seq<char>>,
    add: Seq<Seq<char>>,
)
    requires
        forall|i: int| 0 <= i < flags.len() ==> !remove.contains(#[trigger] flags[i]),
    ensures
        spec_rewrite_flags(flags, remove, add) == flags + add,
{
    let pred = |f: Seq<char>| !remove.contains(f);
    lemma_filter_all(flags, pred);
}

/// Law: a removed flag is removed wherever and however often it occurs: no
/// occurrence survives the filter.
pub proof fn lemma_remove_all_occurrences(
    flags: Seq<Seq<char>>,
    remove: Seq<Seq<char>>,
    x: Seq<char>,
)
    requires
        remove.contains(x),
    ensures
        !flags.filter(|f: Seq<char>| !remove.contains(f)).contains(x),
{
    broadcast use vstd::seq_lib::group_filter_ensures;

    let pred = |f: Seq<char>| !remove.contains(f);
    let kept = flags.filter(pred);
    if kept.contains(x) {
        let i = choose|i: int| 0 <= i < kept.len() && kept[i] == x;
        assert(pred(kept[i]));
    }
}

/// Law: the surviving flags keep their relative order: they come from
/// strictly increasing positions of the original list.
pub open spec fn spec_order_witness(
    s: Seq<Seq<char>>,
    pred: spec_fn(Seq<char>) -> bool,
    idx: Seq<int>,
) -> bool {
    &&& idx.len() == s.filter(pred).len()
    &&& (forall|k: int|
        0 <= k < idx.len() ==> 0 <= #[trigger] idx[k] < s.len() && s[idx[k]] == s.filter(pred)[k])
    &&& (forall|k: int| 0 < k < idx.len() ==> idx[k - 1] < #[trigger] idx[k])
}

#[verifier::rlimit(100)]
pub proof fn lemma_filter_keeps_order(s: Seq<Seq<char>>, pred: spec_fn(Seq<char>) -> bool)
    ensures
        exists|idx: Seq<int>| spec_order_witness(s, pred, idx),
    decreases s.len(),
{
    reveal(Seq::filter);
    if s.len() == 0 {
        let idx = Seq::<int>::empty();
        assert(spec_order_witness(s, pred, idx));
    } else {
        let sub = s.drop_last();
        lemma_filter_keeps_order(sub, pred);
        let idx0 = choose|idx: Seq<int>| spec_order_witness(sub, pred, idx);
        if pred(s.last()) {
            let idx = idx0.push(s.len() - 1);
            assert(s.filter(pred) == sub.filter(pred).push(s.last()));
            assert(spec_order_witness(s, pred, idx)) by {
                assert(forall|k: int|
                    0 <= k < idx0.len() ==> 0 <= #[trigger] idx0[k] < sub.len() && sub[idx0[k]]
                        == sub.filter(pred)[k]);
                assert(forall|k: int|
                    0 <= k < idx0.len() ==> s[#[trigger] idx0[k]] == sub[idx0[k]]);
                assert(forall|k: int|
                    0 <= k < idx0.len() ==> #[trigger] s.filter(pred)[k] == sub.filter(pred)[k]);
            }
        } else {
            assert(s.filter(pred) == sub.filter(pred));
            assert(spec_order_witness(s, pred, idx0)) by {
                assert(forall|k: int|
                    0 <= k < idx0.len() ==> 0 <= #[trigger] idx0[k] < sub.len() && sub[idx0[k]]
                        == sub.filter(pred)[k]);
                assert(forall|k: int|
                    0 <= k < idx0.len() ==> s[#[trigger] idx0[k]] == sub[idx0[k]]);
            }
        }
    }
}

/// Source, output and pass kind are unchanged between two passes.
pub open spec fn spec_pass_preserved(p: PassModel, q: PassModel) -> bool {
    match (p, q) {
        (
            PassModel::Compile { source: s0, output: o0, .. },
            PassModel::Compile { source: s1, output: o1, .. },
        ) => s1 == s0 && o1 == o0,
        (PassModel::Link { output: o0 }, PassModel::Link { output: o1 }) => o1 == o0,
        _ => false,
    }
}

/// Law: rewriting a compiler meaning with k passes yields exactly k passes,
/// in the same order, each of the same kind with the same source and the
/// same output.
pub proof fn lemma_multi_pass_preservation(t: TransformModel, m: MeaningModel)
    requires
        m is Compiler,
    ensures
        ({
            let r = spec_transform(t, m);
            match (m, r) {
                (
                    MeaningModel::Compiler { compiler: c0, working_dir: w0, passes: p0 },
                    MeaningModel::Compiler { compiler: c1, working_dir: w1, passes: p1 },
                ) => {
                    &&& c1 == c0
                    &&& w1 == w0
                    &&& p1.len() == p0.len()
                    &&& (forall|i: int|
                        0 <= i < p0.len() ==> spec_pass_preserved(#[trigger] p0[i], p1[i]))
                },
                _ => false,
            }
        }),
{
    let r = spec_transform(t, m);
    match t {
        TransformModel::NoTransform => {
            match m {
                MeaningModel::Compiler { passes: p0, .. } => {
                    assert(forall|i: int|
                        0 <= i < p0.len() ==> spec_pass_preserved(#[trigger] p0[i], p0[i]));
                },
                _ => {
                },
            }
        },
        TransformModel::Transform { .. } => {
            match m {
                MeaningModel::Compiler { passes: p0, .. } => {
                    let f = |p: PassModel| spec_transform_pass(t, p);
                    assert forall|i: int| 0 <= i < p0.len() implies spec_pass_preserved(
                        #[trigger] p0[i],
                        p0.map_values(f)[i],
                    ) by {
                        assert(p0.map_values(f)[i] == f(p0[i]));
                    }
                },
                _ => {
                },
            }
        },
    }
}

} // verus!
