//! The stage normalizer: turns the flexible, caller-supplied description of a
//! pipeline into an ordered list of canonical stage specifications.

use vstd::prelude::*;
use crate::decimal::{decimal_string, decimal_text};

verus! {

/// A value handed over by the scripting engine as part of a pipeline
/// description.
#[derive(Debug)]
pub enum ScriptValue {
    Nil,
    Boolean(bool),
    Integer(i64),
    /// A floating-point number, already rendered by the engine in its
    /// canonical shortest decimal form (`45.6`, not `45.60`).
    Number(String),
    Str(String),
    /// A callable of the engine, known here only by the host's handle for it.
    Callable(u64),
    /// A table met inside a stage list; its contents are never read.
    Table,
    /// Any other kind of engine value.
    Other,
}

impl Clone for ScriptValue {
    fn clone(&self) -> (r: Self)
        ensures
            r == *self,
    {
        match self {
            ScriptValue::Nil => ScriptValue::Nil,
            ScriptValue::Boolean(b) => ScriptValue::Boolean(*b),
            ScriptValue::Integer(n) => ScriptValue::Integer(*n),
            ScriptValue::Number(s) => ScriptValue::Number(s.clone()),
            ScriptValue::Str(s) => ScriptValue::Str(s.clone()),
            ScriptValue::Callable(h) => ScriptValue::Callable(*h),
            ScriptValue::Table => ScriptValue::Table,
            ScriptValue::Other => ScriptValue::Other,
        }
    }
}

/// One top-level argument of a pipeline call: a scalar or a list.
#[derive(Debug)]
pub enum PipelineArg {
    Scalar(ScriptValue),
    List(Vec<ScriptValue>),
}

/// A canonical pipeline stage.
#[derive(Debug)]
pub enum StageSpec {
    /// An operating-system command with its arguments.
    ExternalCommand { name: String, args: Vec<String> },
    /// A callback into the scripting engine, by the host's handle.
    Callback { handle: u64 },
}

/// The mathematical model of a stage.
pub ghost enum StageModel {
    ExternalCommand { name: Seq<char>, args: Seq<Seq<char>> },
    Callback { handle: u64 },
}

impl View for StageSpec {
    type V = StageModel;

    open spec fn view(&self) -> StageModel {
        match self {
            StageSpec::ExternalCommand { name, args } => StageModel::ExternalCommand {
                name: name@,
                args: args@.map_values(|a: String| a@),
            },
            StageSpec::Callback { handle } => StageModel::Callback { handle: *handle },
        }
    }
}

/// Why a pipeline description was refused. Each is raised before anything
/// is started.
#[derive(PartialEq, Eq, Structural, Debug, Clone, Copy)]
pub enum PipelineError {
    /// No stage at all.
    EmptyPipeline,
    /// A stage whose first element is neither a string nor a callable.
    InvalidStageType,
    /// A stage argument that is neither a string, an integer nor a number.
    InvalidArgumentType,
}

/// The text an argument value stands for, if it can stand for one.
pub open spec fn arg_text(v: ScriptValue) -> Option<Seq<char>> {
    match v {
        ScriptValue::Integer(n) => Some(decimal_text(n as int)),
        ScriptValue::Number(s) => Some(s@),
        ScriptValue::Str(s) => Some(s@),
        _ => None,
    }
}

/// Every element after the first can be rendered as text.
pub open spec fn args_valid(items: Seq<ScriptValue>) -> bool {
    forall|i: int| 1 <= i < items.len() ==> (#[trigger] arg_text(items[i])) is Some
}

/// The texts of the elements after the first.
pub open spec fn args_texts(items: Seq<ScriptValue>) -> Seq<Seq<char>> {
    items.skip(1).map_values(|v: ScriptValue| arg_text(v)->0)
}

/// The stage that one stage list describes.
pub open spec fn stage_model(items: Seq<ScriptValue>) -> Result<StageModel, PipelineError> {
    if items.len() == 0 {
        Err(PipelineError::InvalidStageType)
    } else {
        match items[0] {
            ScriptValue::Str(name) => if args_valid(items) {
                Ok(StageModel::ExternalCommand { name: name@, args: args_texts(items) })
            } else {
                Err(PipelineError::InvalidArgumentType)
            },
            ScriptValue::Callable(handle) => if args_valid(items) {
                Ok(StageModel::Callback { handle })
            } else {
                Err(PipelineError::InvalidArgumentType)
            },
            _ => Err(PipelineError::InvalidStageType),
        }
    }
}

/// Some argument is a list.
pub open spec fn has_list(args: Seq<PipelineArg>) -> bool {
    exists|i: int| 0 <= i < args.len() && (#[trigger] args[i]) is List
}

/// The scalar an argument holds (a list stands as a table).
pub open spec fn scalar_of(a: PipelineArg) -> ScriptValue {
    match a {
        PipelineArg::Scalar(v) => v,
        PipelineArg::List(_) => ScriptValue::Table,
    }
}

/// The stage list an argument stands for: a list as it is, a scalar wrapped
/// into a list of one.
pub open spec fn items_of(a: PipelineArg) -> Seq<ScriptValue> {
    match a {
        PipelineArg::Scalar(v) => seq![v],
        PipelineArg::List(l) => l@,
    }
}

/// The values of a flat call that are present: a nil stands for no value,
/// as it does in the engine's own argument tables.
pub open spec fn present(xs: Seq<ScriptValue>) -> Seq<ScriptValue>
    decreases xs.len(),
{
    if xs.len() == 0 {
        seq![]
    } else if xs.last() is Nil {
        present(xs.drop_last())
    } else {
        present(xs.drop_last()).push(xs.last())
    }
}

/// The single stage list of a call without lists: its present values.
pub open spec fn flat_items(args: Seq<PipelineArg>) -> Seq<ScriptValue> {
    present(args.map_values(|a: PipelineArg| scalar_of(a)))
}

/// The stage lists of a call: one per argument when any argument is a list,
/// otherwise the present values of the whole flat call as a single list.
pub open spec fn stage_lists(args: Seq<PipelineArg>) -> Seq<Seq<ScriptValue>> {
    if has_list(args) {
        args.map_values(|a: PipelineArg| items_of(a))
    } else {
        seq![flat_items(args)]
    }
}

/// The stages of the given lists, in order, or the error of the first list
/// that describes no stage.
pub open spec fn models_of(lists: Seq<Seq<ScriptValue>>) -> Result<Seq<StageModel>, PipelineError>
    decreases lists.len(),
{
    if lists.len() == 0 {
        Ok(seq![])
    } else {
        match models_of(lists.drop_last()) {
            Err(e) => Err(e),
            Ok(pre) => match stage_model(lists.last()) {
                Err(e) => Err(e),
                Ok(s) => Ok(pre.push(s)),
            },
        }
    }
}

/// The pipeline that a call describes. A call without lists whose values
/// are all absent (no arguments, or nils only) describes no stage at all.
pub open spec fn normalized(args: Seq<PipelineArg>) -> Result<Seq<StageModel>, PipelineError> {
    if !has_list(args) && flat_items(args).len() == 0 {
        Err(PipelineError::EmptyPipeline)
    } else {
        models_of(stage_lists(args))
    }
}

/// The models of a list of stages.
pub open spec fn stage_models(stages: Seq<StageSpec>) -> Seq<StageModel> {
    stages.map_values(|s: StageSpec| s@)
}

/// The text of an argument value: integers in decimal, numbers and strings
/// as they are.
pub fn arg_string(v: &ScriptValue) -> (r: Option<String>)
    ensures
        match r {
            Some(s) => arg_text(*v) == Some(s@),
            None => arg_text(*v) is None,
        },
{
    match v {
        ScriptValue::Integer(n) => Some(decimal_string(*n)),
        ScriptValue::Number(s) => Some(s.clone()),
        ScriptValue::Str(s) => Some(s.clone()),
        _ => None,
    }
}

/// The stage that one stage list describes: its first element is the command
/// name or the callable, the rest are its arguments.
pub fn stage_from_items(items: &Vec<ScriptValue>) -> (r: Result<StageSpec, PipelineError>)
    ensures
        match r {
            Ok(s) => stage_model(items@) == Ok::<StageModel, PipelineError>(s@),
            Err(e) => stage_model(items@) == Err::<StageModel, PipelineError>(e),
        },
{
    if items.len() == 0 {
        return Err(PipelineError::InvalidStageType);
    }
    let names_stage = match &items[0] {
        ScriptValue::Str(_) => true,
        ScriptValue::Callable(_) => true,
        _ => false,
    };
    if !names_stage {
        return Err(PipelineError::InvalidStageType);
    }
    let mut args: Vec<String> = Vec::new();
    let mut i: usize = 1;
    while i < items.len()
        invariant
            1 <= i <= items.len(),
            items@[0] is Str || items@[0] is Callable,
            args.len() == i - 1,
            forall|j: int| 1 <= j < i ==> (#[trigger] arg_text(items@[j])) is Some,
            forall|j: int|
                0 <= j < args.len() ==> Some((#[trigger] args@[j])@) == arg_text(items@[j + 1]),
        decreases items.len() - i,
    {
        match arg_string(&items[i]) {
            Some(s) => args.push(s),
            None => {
                assert(arg_text(items@[i as int]) is None);
                assert(!args_valid(items@));
                return Err(PipelineError::InvalidArgumentType);
            },
        }
        i = i + 1;
    }
    assert(args@.map_values(|a: String| a@) =~= args_texts(items@));
    match &items[0] {
        ScriptValue::Str(name) => Ok(StageSpec::ExternalCommand { name: name.clone(), args }),
        ScriptValue::Callable(h) => Ok(StageSpec::Callback { handle: *h }),
        _ => Err(PipelineError::InvalidStageType),
    }
}

/// Whether any argument is a list.
fn any_list(args: &Vec<PipelineArg>) -> (r: bool)
    ensures
        r == has_list(args@),
{
    let mut i: usize = 0;
    while i < args.len()
        invariant
            i <= args.len(),
            forall|j: int| 0 <= j < i ==> !((#[trigger] args@[j]) is List),
        decreases args.len() - i,
    {
        if let PipelineArg::List(_) = &args[i] {
            return true;
        }
        i = i + 1;
    }
    false
}

/// An error met at list `k` stands for the whole sequence of lists.
proof fn lemma_models_error_persists(lists: Seq<Seq<ScriptValue>>, k: int)
    requires
        0 <= k <= lists.len(),
        models_of(lists.take(k)) is Err,
    ensures
        models_of(lists) == models_of(lists.take(k)),
    decreases lists.len() - k,
{
    if k < lists.len() {
        let next = lists.take(k + 1);
        assert(next.drop_last() =~= lists.take(k));
        lemma_models_error_persists(lists, k + 1);
    } else {
        assert(lists.take(k) =~= lists);
    }
}

/// Normalizes a pipeline call into its stages. Nothing is started here: every
/// structural error is found before any stage could be launched.
pub fn normalize_pipeline(args: &Vec<PipelineArg>) -> (r: Result<Vec<StageSpec>, PipelineError>)
    ensures
        match r {
            Ok(stages) => normalized(args@) == Ok::<Seq<StageModel>, PipelineError>(
                stage_models(stages@),
            ),
            Err(e) => normalized(args@) == Err::<Seq<StageModel>, PipelineError>(e),
        },
{
    if !any_list(args) {
        let mut items: Vec<ScriptValue> = Vec::new();
        let mut i: usize = 0;
        assert(args@.take(0).map_values(|a: PipelineArg| scalar_of(a)) =~= Seq::<
            ScriptValue,
        >::empty());
        while i < args.len()
            invariant
                i <= args.len(),
                items@ == present(args@.take(i as int).map_values(|a: PipelineArg| scalar_of(a))),
            decreases args.len() - i,
        {
            let ghost pre = args@.take(i as int).map_values(|a: PipelineArg| scalar_of(a));
            let ghost next = args@.take(i + 1).map_values(|a: PipelineArg| scalar_of(a));
            assert(next.drop_last() =~= pre);
            assert(next.last() == scalar_of(args@[i as int]));
            match &args[i] {
                PipelineArg::Scalar(ScriptValue::Nil) => {},
                PipelineArg::Scalar(v) => items.push(v.clone()),
                PipelineArg::List(_) => items.push(ScriptValue::Table),
            }
            i = i + 1;
        }
        assert(args@.take(args.len() as int) =~= args@);
        if items.len() == 0 {
            return Err(PipelineError::EmptyPipeline);
        }
        let ghost lists = stage_lists(args@);
        assert(lists.drop_last() =~= Seq::<Seq<ScriptValue>>::empty());
        assert(lists.last() == items@);
        assert(models_of(lists.drop_last()) == Ok::<Seq<StageModel>, PipelineError>(seq![]));
        return match stage_from_items(&items) {
            Ok(s) => {
                let stages = vec![s];
                assert(stage_models(stages@) =~= seq![s@]);
                assert(Seq::<StageModel>::empty().push(s@) =~= seq![s@]);
                Ok(stages)
            },
            Err(e) => Err(e),
        };
    }
    let ghost lists = stage_lists(args@);
    let mut stages: Vec<StageSpec> = Vec::new();
    let mut i: usize = 0;
    assert(lists.take(0) =~= Seq::<Seq<ScriptValue>>::empty());
    assert(stage_models(stages@) =~= Seq::<StageModel>::empty());
    while i < args.len()
        invariant
            i <= args.len(),
            lists == stage_lists(args@),
            has_list(args@),
            lists.len() == args.len(),
            models_of(lists.take(i as int)) == Ok::<Seq<StageModel>, PipelineError>(
                stage_models(stages@),
            ),
        decreases args.len() - i,
    {
        let step = match &args[i] {
            PipelineArg::List(l) => stage_from_items(l),
            PipelineArg::Scalar(v) => {
                let single = vec![v.clone()];
                assert(single@ =~= items_of(args@[i as int]));
                stage_from_items(&single)
            },
        };
        assert(lists.take(i + 1).drop_last() =~= lists.take(i as int));
        assert(lists.take(i + 1).last() == lists[i as int]);
        assert(lists[i as int] == items_of(args@[i as int]));
        match step {
            Ok(s) => {
                let ghost before = stages@;
                stages.push(s);
                assert(stage_models(stages@) =~= stage_models(before).push(s@));
                assert(models_of(lists.take(i + 1)) == Ok::<Seq<StageModel>, PipelineError>(
                    stage_models(before).push(s@),
                ));
            },
            Err(e) => {
                proof {
                    lemma_models_error_persists(lists, i + 1);
                }
                return Err(e);
            },
        }
        i = i + 1;
    }
    assert(lists.take(args.len() as int) =~= lists);
    Ok(stages)
}

/// A call whose arguments are the given scalars, one by one.
pub open spec fn flat_call(xs: Seq<ScriptValue>) -> Seq<PipelineArg> {
    xs.map_values(|x: ScriptValue| PipelineArg::Scalar(x))
}

proof fn lemma_single_list(list: Seq<ScriptValue>)
    ensures
        models_of(seq![list]) == match stage_model(list) {
            Ok(s) => Ok::<Seq<StageModel>, PipelineError>(seq![s]),
            Err(e) => Err::<Seq<StageModel>, PipelineError>(e),
        },
{
    let lists = seq![list];
    assert(lists.drop_last() =~= Seq::<Seq<ScriptValue>>::empty());
    assert(models_of(lists.drop_last()) == Ok::<Seq<StageModel>, PipelineError>(seq![]));
    match stage_model(list) {
        Ok(s) => {
            assert(Seq::<StageModel>::empty().push(s) =~= seq![s]);
        },
        Err(_) => {},
    }
}

/// No value of `xs` is nil.
pub open spec fn no_nils(xs: Seq<ScriptValue>) -> bool {
    forall|i: int| 0 <= i < xs.len() ==> !((#[trigger] xs[i]) is Nil)
}

proof fn lemma_present_all(xs: Seq<ScriptValue>)
    requires
        no_nils(xs),
    ensures
        present(xs) == xs,
    decreases xs.len(),
{
    if xs.len() > 0 {
        let pre = xs.drop_last();
        assert(no_nils(pre)) by {
            assert forall|i: int| 0 <= i < pre.len() implies !((#[trigger] pre[i]) is Nil) by {
                assert(pre[i] == xs[i]);
            }
        }
        lemma_present_all(pre);
        assert(!(xs[xs.len() - 1] is Nil));
        assert(pre.push(xs.last()) =~= xs);
    }
}

proof fn lemma_present_none(xs: Seq<ScriptValue>)
    requires
        forall|i: int| 0 <= i < xs.len() ==> (#[trigger] xs[i]) is Nil,
    ensures
        present(xs).len() == 0,
    decreases xs.len(),
{
    if xs.len() > 0 {
        let pre = xs.drop_last();
        assert forall|i: int| 0 <= i < pre.len() implies (#[trigger] pre[i]) is Nil by {
            assert(pre[i] == xs[i]);
        }
        lemma_present_none(pre);
        assert(xs[xs.len() - 1] is Nil);
    }
}

/// A call whose values are all nil (or that has none) describes no stage:
/// it is an empty pipeline.
pub proof fn lemma_nil_call_is_empty(xs: Seq<ScriptValue>)
    requires
        forall|i: int| 0 <= i < xs.len() ==> (#[trigger] xs[i]) is Nil,
    ensures
        normalized(flat_call(xs)) == Err::<Seq<StageModel>, PipelineError>(
            PipelineError::EmptyPipeline,
        ),
{
    let args = flat_call(xs);
    assert(!has_list(args));
    assert(args.map_values(|a: PipelineArg| scalar_of(a)) =~= xs);
    lemma_present_none(xs);
}

/// A non-empty call made only of scalars other than nil describes exactly
/// one stage: the first value names the command and the remaining values
/// are its arguments.
pub proof fn lemma_flat_call_is_one_stage(xs: Seq<ScriptValue>)
    requires
        xs.len() > 0,
        no_nils(xs),
    ensures
        normalized(flat_call(xs)) == match stage_model(xs) {
            Ok(s) => Ok::<Seq<StageModel>, PipelineError>(seq![s]),
            Err(e) => Err::<Seq<StageModel>, PipelineError>(e),
        },
        match xs[0] {
            ScriptValue::Str(name) => args_valid(xs) ==> normalized(flat_call(xs)) == Ok::<
                Seq<StageModel>,
                PipelineError,
            >(seq![StageModel::ExternalCommand { name: name@, args: args_texts(xs) }]),
            _ => true,
        },
{
    let args = flat_call(xs);
    assert(!has_list(args));
    assert(args.map_values(|a: PipelineArg| scalar_of(a)) =~= xs);
    lemma_present_all(xs);
    assert(stage_lists(args) =~= seq![xs]);
    lemma_single_list(xs);
}

/// Giving a command's values one by one, or as a single list, describes the
/// same pipeline.
pub proof fn lemma_flat_call_matches_single_list(xs: Seq<ScriptValue>, list: Vec<ScriptValue>)
    requires
        xs.len() > 0,
        no_nils(xs),
        list@ == xs,
    ensures
        normalized(flat_call(xs)) == normalized(seq![PipelineArg::List(list)]),
{
    lemma_flat_call_is_one_stage(xs);
    let single = seq![PipelineArg::List(list)];
    assert(single[0] is List);
    assert(has_list(single));
    assert(stage_lists(single) =~= seq![xs]);
    lemma_single_list(xs);
}

} // verus!
