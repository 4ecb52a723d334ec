//! The stage launcher's plan: which stage reads from where, and which
//! callback identifier each callback stage receives.

use vstd::prelude::*;
use crate::stage::{StageModel, StageSpec, stage_models};

verus! {

/// Where a stage takes its input from.
#[derive(PartialEq, Eq, Structural, Debug, Clone, Copy)]
pub enum StageInput {
    /// The real standard input of the process (first stage only).
    Inherited,
    /// The read end of the pipe that the previous stage writes to.
    Upstream,
}

/// How a stage is started.
#[derive(Debug)]
pub enum LaunchAction {
    /// Spawn a child process with this name and these arguments.
    Spawn { name: String, args: Vec<String> },
    /// Start a worker thread for the callback `handle`, routed under `id`.
    StartWorker { id: u64, handle: u64 },
}

/// One stage of the plan. Every stage writes to a fresh pipe of its own.
#[derive(Debug)]
pub struct LaunchStep {
    pub input: StageInput,
    pub action: LaunchAction,
}

/// The number of callback stages among the given stages.
pub open spec fn callback_count(stages: Seq<StageModel>) -> nat
    decreases stages.len(),
{
    if stages.len() == 0 {
        0
    } else {
        callback_count(stages.drop_last()) + if stages.last() is Callback {
            1nat
        } else {
            0nat
        }
    }
}

/// The handles of the callback stages, in stage order; the callback
/// identifier of the handle at position `j` is `j + 1`.
pub open spec fn callback_handles(stages: Seq<StageModel>) -> Seq<u64>
    decreases stages.len(),
{
    if stages.len() == 0 {
        seq![]
    } else {
        let pre = callback_handles(stages.drop_last());
        match stages.last() {
            StageModel::Callback { handle } => pre.push(handle),
            _ => pre,
        }
    }
}

/// The plan is the launch of the given stages, in order: the first stage
/// reads the real input and every later one the pipe of the stage before it;
/// a command is spawned as it stands, and a callback stage gets the next
/// callback identifier, counting from 1.
pub open spec fn plans(stages: Seq<StageModel>, plan: Seq<LaunchStep>) -> bool {
    &&& plan.len() == stages.len()
    &&& forall|i: int|
        0 <= i < plan.len() ==> ((#[trigger] plan[i]).input == StageInput::Inherited <==> i == 0)
    &&& forall|i: int|
        0 <= i < plan.len() ==> match stages[i] {
            StageModel::ExternalCommand { name, args } => match (#[trigger] plan[i]).action {
                LaunchAction::Spawn { name: n, args: a } => n@ == name && a@.map_values(
                    |s: String| s@,
                ) == args,
                _ => false,
            },
            StageModel::Callback { handle } => match plan[i].action {
                LaunchAction::StartWorker { id, handle: h } => h == handle && id
                    == callback_count(stages.take(i)) + 1,
                _ => false,
            },
        }
}

/// A copy of a list of strings.
fn copy_strings(v: &Vec<String>) -> (r: Vec<String>)
    ensures
        r@ == v@,
{
    let mut r: Vec<String> = Vec::new();
    let mut i: usize = 0;
    while i < v.len()
        invariant
            i <= v.len(),
            r@ == v@.take(i as int),
        decreases v.len() - i,
    {
        r.push(v[i].clone());
        i = i + 1;
        assert(r@ =~= v@.take(i as int));
    }
    assert(v@.take(v.len() as int) =~= v@);
    r
}

/// Lays out the launch of the given stages.
pub fn plan_launch(stages: &Vec<StageSpec>) -> (plan: Vec<LaunchStep>)
    requires
        stages.len() < u64::MAX,
    ensures
        plans(stage_models(stages@), plan@),
{
    let ghost models = stage_models(stages@);
    let mut plan: Vec<LaunchStep> = Vec::new();
    let mut next_id: u64 = 1;
    let mut i: usize = 0;
    while i < stages.len()
        invariant
            i <= stages.len(),
            stages.len() < u64::MAX,
            models == stage_models(stages@),
            plan.len() == i,
            next_id == callback_count(models.take(i as int)) + 1,
            forall|k: int|
                0 <= k < plan.len() ==> ((#[trigger] plan@[k]).input == StageInput::Inherited
                    <==> k == 0),
            forall|k: int|
                0 <= k < plan.len() ==> match models[k] {
                    StageModel::ExternalCommand { name, args } => match (#[trigger] plan@[k]).action {
                        LaunchAction::Spawn { name: n, args: a } => n@ == name && a@.map_values(
                            |s: String| s@,
                        ) == args,
                        _ => false,
                    },
                    StageModel::Callback { handle } => match plan@[k].action {
                        LaunchAction::StartWorker { id, handle: h } => h == handle && id
                            == callback_count(models.take(k)) + 1,
                        _ => false,
                    },
                },
        decreases stages.len() - i,
    {
        assert(models.take(i + 1).drop_last() =~= models.take(i as int));
        assert(models[i as int] == stages@[i as int]@);
        proof {
            lemma_count_bounded(models.take(i as int));
        }
        let input = if i == 0 {
            StageInput::Inherited
        } else {
            StageInput::Upstream
        };
        let action = match &stages[i] {
            StageSpec::ExternalCommand { name, args } => LaunchAction::Spawn {
                name: name.clone(),
                args: copy_strings(args),
            },
            StageSpec::Callback { handle } => {
                let id = next_id;
                next_id = next_id + 1;
                LaunchAction::StartWorker { id, handle: *handle }
            },
        };
        plan.push(LaunchStep { input, action });
        i = i + 1;
    }
    plan
}

proof fn lemma_count_bounded(stages: Seq<StageModel>)
    ensures
        callback_count(stages) <= stages.len(),
    decreases stages.len(),
{
    if stages.len() > 0 {
        lemma_count_bounded(stages.drop_last());
    }
}

} // verus!
