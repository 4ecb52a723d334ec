use lush::dispatch::{
    reply_for, strip_line_ending, CallbackWorker, DispatchAction, Dispatcher, PipeMessage,
};
use lush::launch::{plan_launch, LaunchAction, StageInput};
use lush::stage::{
    arg_string, normalize_pipeline, stage_from_items, PipelineArg, PipelineError, ScriptValue,
    StageSpec,
};

fn s(text: &str) -> ScriptValue {
    ScriptValue::Str(text.to_string())
}

fn flat(values: Vec<ScriptValue>) -> Vec<PipelineArg> {
    values.into_iter().map(PipelineArg::Scalar).collect()
}

fn command(stage: &StageSpec) -> (String, Vec<String>) {
    match stage {
        StageSpec::ExternalCommand { name, args } => (name.clone(), args.clone()),
        StageSpec::Callback { .. } => panic!("expected a command stage"),
    }
}

#[test]
fn test_error_empty_pipeline() {
    let result = normalize_pipeline(&vec![]);
    assert!(result.is_err());
    assert!(matches!(result, Err(PipelineError::EmptyPipeline)));
}

#[test]
fn flat_call_is_one_command_stage() {
    let stages = normalize_pipeline(&flat(vec![s("echo"), s("asd")])).unwrap();
    assert_eq!(stages.len(), 1);
    assert_eq!(command(&stages[0]), ("echo".to_string(), vec!["asd".to_string()]));
}

#[test]
fn flat_call_with_several_arguments() {
    let stages =
        normalize_pipeline(&flat(vec![s("echo"), s("hello"), s("world"), s("!")])).unwrap();
    assert_eq!(stages.len(), 1);
    assert_eq!(
        command(&stages[0]),
        (
            "echo".to_string(),
            vec!["hello".to_string(), "world".to_string(), "!".to_string()]
        )
    );
}

#[test]
fn numeric_arguments_are_rendered() {
    let stages = normalize_pipeline(&flat(vec![
        s("echo"),
        ScriptValue::Integer(123),
        ScriptValue::Number("45.6".to_string()),
        ScriptValue::Integer(-9_223_372_036_854_775_808),
        ScriptValue::Integer(0),
    ]))
    .unwrap();
    assert_eq!(
        command(&stages[0]).1,
        vec![
            "123".to_string(),
            "45.6".to_string(),
            "-9223372036854775808".to_string(),
            "0".to_string()
        ]
    );
}

#[test]
fn three_lists_make_three_stages_in_order() {
    let args = vec![
        PipelineArg::List(vec![s("echo"), s("line1\nline2\nline3")]),
        PipelineArg::List(vec![s("grep"), s("line")]),
        PipelineArg::List(vec![s("wc"), s("-l")]),
    ];
    let stages = normalize_pipeline(&args).unwrap();
    assert_eq!(stages.len(), 3);
    assert_eq!(command(&stages[0]).0, "echo");
    assert_eq!(command(&stages[0]).1, vec!["line1\nline2\nline3".to_string()]);
    assert_eq!(command(&stages[1]).0, "grep");
    assert_eq!(command(&stages[2]), ("wc".to_string(), vec!["-l".to_string()]));
}

#[test]
fn flat_call_and_single_list_agree() {
    let values = || vec![s("echo"), s("hello"), s("world")];
    let a = normalize_pipeline(&flat(values())).unwrap();
    let b = normalize_pipeline(&vec![PipelineArg::List(values())]).unwrap();
    assert_eq!(a.len(), 1);
    assert_eq!(b.len(), 1);
    assert_eq!(command(&a[0]), command(&b[0]));
}

#[test]
fn scalars_beside_lists_become_stages_of_their_own() {
    let args = vec![
        PipelineArg::List(vec![s("ls"), s("-la")]),
        PipelineArg::Scalar(ScriptValue::Callable(4)),
        PipelineArg::Scalar(s("sort")),
    ];
    let stages = normalize_pipeline(&args).unwrap();
    assert_eq!(stages.len(), 3);
    assert!(matches!(stages[1], StageSpec::Callback { handle: 4 }));
    assert_eq!(command(&stages[2]), ("sort".to_string(), vec![]));
}

#[test]
fn malformed_descriptions_are_refused() {
    let bad_name = normalize_pipeline(&flat(vec![ScriptValue::Integer(1), s("x")]));
    assert!(matches!(bad_name, Err(PipelineError::InvalidStageType)));

    let empty_list = normalize_pipeline(&vec![PipelineArg::List(vec![])]);
    assert!(matches!(empty_list, Err(PipelineError::InvalidStageType)));

    let nil_stage = normalize_pipeline(&vec![
        PipelineArg::List(vec![s("ls")]),
        PipelineArg::Scalar(ScriptValue::Nil),
    ]);
    assert!(matches!(nil_stage, Err(PipelineError::InvalidStageType)));

    let bad_arg = normalize_pipeline(&flat(vec![s("echo"), ScriptValue::Boolean(true)]));
    assert!(matches!(bad_arg, Err(PipelineError::InvalidArgumentType)));

    let table_arg = normalize_pipeline(&vec![PipelineArg::List(vec![s("echo"), ScriptValue::Table])]);
    assert!(matches!(table_arg, Err(PipelineError::InvalidArgumentType)));

    let callback_bad_arg = stage_from_items(&vec![ScriptValue::Callable(1), ScriptValue::Other]);
    assert!(matches!(callback_bad_arg, Err(PipelineError::InvalidArgumentType)));
}

#[test]
fn first_bad_stage_decides_the_error() {
    let args = vec![
        PipelineArg::List(vec![s("echo"), ScriptValue::Nil]),
        PipelineArg::List(vec![ScriptValue::Boolean(false)]),
    ];
    assert!(matches!(
        normalize_pipeline(&args),
        Err(PipelineError::InvalidArgumentType)
    ));
}

#[test]
fn argument_texts() {
    assert_eq!(arg_string(&ScriptValue::Integer(-42)), Some("-42".to_string()));
    assert_eq!(arg_string(&ScriptValue::Integer(7)), Some("7".to_string()));
    assert_eq!(arg_string(&ScriptValue::Nil), None);
}

#[test]
fn launch_plan_wires_stages_and_numbers_callbacks() {
    let stages = vec![
        StageSpec::Callback { handle: 10 },
        StageSpec::ExternalCommand { name: "grep".to_string(), args: vec!["x".to_string()] },
        StageSpec::Callback { handle: 20 },
    ];
    let plan = plan_launch(&stages);
    assert_eq!(plan.len(), 3);
    assert_eq!(plan[0].input, StageInput::Inherited);
    assert_eq!(plan[1].input, StageInput::Upstream);
    assert_eq!(plan[2].input, StageInput::Upstream);
    assert!(matches!(plan[0].action, LaunchAction::StartWorker { id: 1, handle: 10 }));
    match &plan[1].action {
        LaunchAction::Spawn { name, args } => {
            assert_eq!(name, "grep");
            assert_eq!(args, &vec!["x".to_string()]);
        }
        other => panic!("unexpected {:?}", other),
    }
    assert!(matches!(plan[2].action, LaunchAction::StartWorker { id: 2, handle: 20 }));
}

#[test]
fn dispatcher_routes_and_retires() {
    let stages = vec![
        StageSpec::Callback { handle: 10 },
        StageSpec::ExternalCommand { name: "cat".to_string(), args: vec![] },
        StageSpec::Callback { handle: 20 },
    ];
    let mut d = Dispatcher::for_stages(&stages);
    assert!(d.is_running());
    match d.handle(PipeMessage::Execute { id: 2, line: "x".to_string() }) {
        DispatchAction::Invoke { id, handle, line } => {
            assert_eq!((id, handle, line.as_str()), (2, 20, "x"));
        }
        other => panic!("unexpected {:?}", other),
    }
    assert!(matches!(d.handle(PipeMessage::Execute { id: 3, line: String::new() }), DispatchAction::Ignore));
    assert!(matches!(d.handle(PipeMessage::Finished { id: 1 }), DispatchAction::Retire { id: 1 }));
    assert!(matches!(d.handle(PipeMessage::Finished { id: 1 }), DispatchAction::Ignore));
    assert!(matches!(
        d.handle(PipeMessage::Execute { id: 1, line: "late".to_string() }),
        DispatchAction::Ignore
    ));
    assert!(d.is_running());
    assert!(matches!(d.handle(PipeMessage::Finished { id: 2 }), DispatchAction::Retire { id: 2 }));
    assert!(!d.is_running());
}

#[test]
fn dispatcher_without_callbacks_is_idle() {
    let stages = vec![StageSpec::ExternalCommand { name: "ls".to_string(), args: vec![] }];
    assert!(!Dispatcher::for_stages(&stages).is_running());
}

/// Runs the lines of a callback stage through a worker and the dispatcher,
/// with `engine` standing for the scripting engine's callback.
fn run_callback_stage(input: &str, engine: impl Fn(&str) -> Result<String, String>) -> String {
    let stages = vec![
        StageSpec::ExternalCommand { name: "echo".to_string(), args: vec![] },
        StageSpec::Callback { handle: 0 },
        StageSpec::ExternalCommand { name: "cat".to_string(), args: vec![] },
    ];
    let plan = plan_launch(&stages);
    let id = match plan[1].action {
        LaunchAction::StartWorker { id, .. } => id,
        _ => panic!("expected a worker"),
    };
    let mut dispatcher = Dispatcher::for_stages(&stages);
    let mut worker = CallbackWorker::new(id);
    let mut out = String::new();
    for raw in input.split_inclusive('\n') {
        let message = worker.request(strip_line_ending(raw));
        match dispatcher.handle(message) {
            DispatchAction::Invoke { line, .. } => {
                if let Some(text) = worker.accept(reply_for(engine(&line))) {
                    out.push_str(&text);
                }
            }
            other => panic!("unexpected {:?}", other),
        }
    }
    assert!(matches!(dispatcher.handle(worker.finish()), DispatchAction::Retire { .. }));
    assert!(!dispatcher.is_running());
    out
}

#[test]
fn uppercasing_callback_keeps_line_order() {
    let out = run_callback_stage("a\nb\nc\n", |line| Ok(line.to_uppercase()));
    assert_eq!(out, "A\nB\nC\n");
}

#[test]
fn failing_line_is_dropped_alone() {
    let out = run_callback_stage("good\nbad\nfine\n", |line| {
        if line == "bad" {
            Err("refused".to_string())
        } else {
            Ok(line.to_string())
        }
    });
    assert_eq!(out, "good\nfine\n");
}

#[test]
fn worker_tracks_its_request_in_flight() {
    let mut w = CallbackWorker::new(3);
    assert_eq!(w.id(), 3);
    assert!(!w.is_awaiting());
    assert!(matches!(w.request("x".to_string()), PipeMessage::Execute { id: 3, .. }));
    assert!(w.is_awaiting());
    assert_eq!(w.accept(None), None);
    assert!(!w.is_awaiting());
    assert!(matches!(w.finish(), PipeMessage::Finished { id: 3 }));
}

#[test]
fn line_endings_are_removed() {
    assert_eq!(strip_line_ending("abc\n"), "abc");
    assert_eq!(strip_line_ending("abc\r\n"), "abc");
    assert_eq!(strip_line_ending("abc\r"), "abc\r");
    assert_eq!(strip_line_ending("abc"), "abc");
    assert_eq!(strip_line_ending("\n"), "");
}

#[test]
fn replies_follow_the_outcome() {
    assert_eq!(reply_for::<()>(Ok("x".to_string())), Some("x".to_string()));
    assert_eq!(reply_for(Err::<String, i32>(1)), None);
}

#[test]
fn call_of_nils_only_is_empty() {
    let result = normalize_pipeline(&flat(vec![ScriptValue::Nil]));
    assert!(matches!(result, Err(PipelineError::EmptyPipeline)));
    let result = normalize_pipeline(&flat(vec![ScriptValue::Nil, ScriptValue::Nil]));
    assert!(matches!(result, Err(PipelineError::EmptyPipeline)));
}

#[test]
fn nils_in_a_flat_call_are_absent() {
    let stages = normalize_pipeline(&flat(vec![ScriptValue::Nil, s("echo"), ScriptValue::Nil, s("x")])).unwrap();
    assert_eq!(command(&stages[0]), ("echo".to_string(), vec!["x".to_string()]));
}
