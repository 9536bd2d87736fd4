use yarn_dialog::context::{MapContext, StateContext};
use yarn_dialog::errors::DialogRunnerError;
use yarn_dialog::parsing::load_from_file;
use yarn_dialog::registry::CommandRegistry;
use yarn_dialog::runner::DialogRunner;
use yarn_dialog::runner_state::{DialogEvent, DialogState};

fn scenario_script() -> &'static str {
    "title: Start\n\
     ---\n\
     <<set $met to true>>\n\
     Narrator: Hello\n\
     <<jump Start2>>\n\
     ===\n\
     title: Start2\n\
     ---\n\
     -> Leave\n\
     <<jump End>>\n\
     -> Stay <<if $met == true>>\n\
     <<jump Start>>\n\
     ===\n\
     title: End\n\
     ---\n\
     Narrator: Bye\n\
     ===\n"
}

fn runner_for(script: &str, start: &str) -> DialogRunner {
    let nodes = load_from_file(script).unwrap();
    DialogRunner::create_from_nodes(nodes, start).unwrap()
}

#[test]
fn create_fails_on_missing_start_node() {
    let nodes = load_from_file(scenario_script()).unwrap();
    match DialogRunner::create_from_nodes(nodes, "Elsewhere") {
        Err(DialogRunnerError::StartingNodeNotFound { node_name }) => {
            assert_eq!(node_name, "Elsewhere");
        }
        Err(other) => panic!("expected a missing start node error, got {:?}", other),
        Ok(_) => panic!("expected an error, got a runner"),
    }
}

#[test]
fn end_to_end_scenario() {
    let mut runner = runner_for(scenario_script(), "Start");
    let mut ctx = MapContext::new();
    let mut reg = CommandRegistry::new();

    // First event: the set line is applied silently, then the dialog line.
    match runner.next_event(&mut ctx, &mut reg).unwrap() {
        DialogEvent::Dialog { speaker, text, tags } => {
            assert_eq!(speaker, "Narrator");
            assert_eq!(text, "Hello");
            assert!(tags.is_empty());
        }
        other => panic!("expected dialog, got {:?}", other),
    }
    assert_eq!(ctx.get_value("met"), Some(true));

    // Second event: the jump is followed, the option block is presented;
    // `met` was set true, so the guarded possibility is visible too.
    match runner.next_event(&mut ctx, &mut reg).unwrap() {
        DialogEvent::Options { speaker, options } => {
            assert_eq!(speaker, "Player");
            assert_eq!(options.len(), 2);
            assert_eq!(options[0].text, "Leave");
            assert_eq!(options[0].node, "End");
            assert!(!options[0].used);
            assert_eq!(options[1].text, "Stay");
            assert_eq!(options[1].node, "Start");
            assert!(!options[1].used);
        }
        other => panic!("expected options, got {:?}", other),
    }
    assert_eq!(runner.current_state(), DialogState::Waiting);

    // Deciding for "Start" marks the possibility used and repositions.
    runner.make_decision("Start").unwrap();
    assert_eq!(runner.current_state(), DialogState::Start);

    // The next event re-emits the Start node's dialog line.
    match runner.next_event(&mut ctx, &mut reg).unwrap() {
        DialogEvent::Dialog { speaker, text, .. } => {
            assert_eq!(speaker, "Narrator");
            assert_eq!(text, "Hello");
        }
        other => panic!("expected dialog, got {:?}", other),
    }

    // Back at the options: the chosen possibility now reads used.
    match runner.next_event(&mut ctx, &mut reg).unwrap() {
        DialogEvent::Options { options, .. } => {
            assert_eq!(options.len(), 2);
            assert!(!options[0].used);
            assert!(options[1].used);
        }
        other => panic!("expected options, got {:?}", other),
    }
}

#[test]
fn waiting_state_is_idempotent_and_mutates_nothing() {
    let mut runner = runner_for(scenario_script(), "Start2");
    let mut ctx = MapContext::new();
    let mut reg = CommandRegistry::new();
    let first = runner.next_event(&mut ctx, &mut reg).unwrap();
    assert!(matches!(first, DialogEvent::Options { .. }));
    assert_eq!(runner.current_state(), DialogState::Waiting);
    for _ in 0..3 {
        assert_eq!(runner.next_event(&mut ctx, &mut reg).unwrap(), DialogEvent::Waiting);
        assert_eq!(runner.current_state(), DialogState::Waiting);
    }
    assert_eq!(ctx.get_value("met"), None);
    assert!(reg.call_log().is_empty());
}

#[test]
fn end_state_is_idempotent() {
    let mut runner = runner_for(scenario_script(), "End");
    let mut ctx = MapContext::new();
    let mut reg = CommandRegistry::new();
    match runner.next_event(&mut ctx, &mut reg).unwrap() {
        DialogEvent::Dialog { text, .. } => assert_eq!(text, "Bye"),
        other => panic!("expected dialog, got {:?}", other),
    }
    assert_eq!(runner.current_state(), DialogState::End);
    for _ in 0..3 {
        assert_eq!(runner.next_event(&mut ctx, &mut reg).unwrap(), DialogEvent::End);
        assert_eq!(runner.current_state(), DialogState::End);
    }
}

#[test]
fn conditional_filtering_shows_exactly_the_passing_option() {
    let script = "title: Ask\n\
                  ---\n\
                  -> Agree <<if $flag == true>>\n\
                  <<jump Ask>>\n\
                  -> Refuse <<if $flag == false>>\n\
                  <<jump Ask>>\n\
                  ===\n";
    let mut runner = runner_for(script, "Ask");
    let mut ctx = MapContext::new();
    ctx.set_value("flag", true);
    let mut reg = CommandRegistry::new();
    match runner.next_event(&mut ctx, &mut reg).unwrap() {
        DialogEvent::Options { options, .. } => {
            assert_eq!(options.len(), 1);
            assert_eq!(options[0].text, "Agree");
        }
        other => panic!("expected options, got {:?}", other),
    }
}

#[test]
fn unset_variable_fails_closed_for_both_operators() {
    let script = "title: Ask\n\
                  ---\n\
                  -> Eq <<if $unset == true>>\n\
                  <<jump Ask>>\n\
                  -> EqF <<if $unset == false>>\n\
                  <<jump Ask>>\n\
                  -> Ne <<if $unset != true>>\n\
                  <<jump Ask>>\n\
                  -> Always\n\
                  <<jump Ask>>\n\
                  ===\n";
    let mut runner = runner_for(script, "Ask");
    let mut ctx = MapContext::new();
    let mut reg = CommandRegistry::new();
    match runner.next_event(&mut ctx, &mut reg).unwrap() {
        DialogEvent::Options { options, .. } => {
            assert_eq!(options.len(), 1);
            assert_eq!(options[0].text, "Always");
        }
        other => panic!("expected options, got {:?}", other),
    }
}

#[test]
fn decision_outside_waiting_is_a_wrong_state_error_without_mutation() {
    let mut runner = runner_for(scenario_script(), "Start");
    assert_eq!(runner.current_state(), DialogState::Start);
    match runner.make_decision("Start2") {
        Err(DialogRunnerError::WrongState { current, expected }) => {
            assert_eq!(current, DialogState::Start);
            assert_eq!(expected, DialogState::Waiting);
        }
        other => panic!("expected a wrong state error, got {:?}", other),
    }
    assert_eq!(runner.current_state(), DialogState::Start);
    // The runner still works as if nothing happened.
    let mut ctx = MapContext::new();
    let mut reg = CommandRegistry::new();
    assert!(matches!(
        runner.next_event(&mut ctx, &mut reg).unwrap(),
        DialogEvent::Dialog { .. }
    ));
}

#[test]
fn deciding_an_unlisted_title_is_an_error() {
    let mut runner = runner_for(scenario_script(), "Start2");
    let mut ctx = MapContext::new();
    let mut reg = CommandRegistry::new();
    runner.next_event(&mut ctx, &mut reg).unwrap();
    match runner.make_decision("Nowhere") {
        Err(DialogRunnerError::UnknownNodeChosen { node_name }) => {
            assert_eq!(node_name, "Nowhere");
        }
        other => panic!("expected an unknown node chosen error, got {:?}", other),
    }
    assert_eq!(runner.current_state(), DialogState::Waiting);
}

#[test]
fn registered_commands_are_recorded_in_order() {
    let script = "title: Start\n\
                  ---\n\
                  <<fade_in>>\n\
                  <<play_sound door creak>>\n\
                  Narrator: Done\n\
                  ===\n";
    let mut runner = runner_for(script, "Start");
    let mut ctx = MapContext::new();
    let mut reg = CommandRegistry::new();
    reg.register(String::from("fade_in"));
    reg.register(String::from("play_sound"));
    match runner.next_event(&mut ctx, &mut reg).unwrap() {
        DialogEvent::Dialog { text, .. } => assert_eq!(text, "Done"),
        other => panic!("expected dialog, got {:?}", other),
    }
    let calls = reg.take_calls();
    assert_eq!(calls.len(), 2);
    assert_eq!(calls[0].func_name, "fade_in");
    assert!(calls[0].args.is_empty());
    assert_eq!(calls[1].func_name, "play_sound");
    assert_eq!(calls[1].args, vec![String::from("door"), String::from("creak")]);
    assert!(reg.call_log().is_empty());
}

#[test]
fn unregistered_command_is_fatal() {
    let script = "title: Start\n\
                  ---\n\
                  <<no_such_command>>\n\
                  Narrator: Never reached\n\
                  ===\n";
    let mut runner = runner_for(script, "Start");
    let mut ctx = MapContext::new();
    let mut reg = CommandRegistry::new();
    match runner.next_event(&mut ctx, &mut reg) {
        Err(DialogRunnerError::UnregisteredCommand { func_name }) => {
            assert_eq!(func_name, "no_such_command");
        }
        other => panic!("expected an unregistered command error, got {:?}", other),
    }
}

#[test]
fn a_pure_jump_cycle_is_reported_not_hung() {
    let script = "title: A\n\
                  ---\n\
                  <<jump B>>\n\
                  ===\n\
                  title: B\n\
                  ---\n\
                  <<jump A>>\n\
                  ===\n";
    let mut runner = runner_for(script, "A");
    let mut ctx = MapContext::new();
    let mut reg = CommandRegistry::new();
    assert!(matches!(
        runner.next_event(&mut ctx, &mut reg),
        Err(DialogRunnerError::EndlessLoop)
    ));
    assert_eq!(runner.current_state(), DialogState::End);
}

#[test]
fn reset_to_repositions_and_restarts() {
    let mut runner = runner_for(scenario_script(), "Start");
    let mut ctx = MapContext::new();
    let mut reg = CommandRegistry::new();
    runner.next_event(&mut ctx, &mut reg).unwrap();
    runner.reset_to("End").unwrap();
    assert_eq!(runner.current_state(), DialogState::Start);
    match runner.next_event(&mut ctx, &mut reg).unwrap() {
        DialogEvent::Dialog { text, .. } => assert_eq!(text, "Bye"),
        other => panic!("expected dialog, got {:?}", other),
    }
    match runner.reset_to("Nowhere") {
        Err(DialogRunnerError::StartingNodeNotFound { node_name }) => {
            assert_eq!(node_name, "Nowhere");
        }
        other => panic!("expected a missing node error, got {:?}", other),
    }
}

#[test]
fn map_context_stores_and_overwrites() {
    let mut ctx = MapContext::new();
    assert_eq!(ctx.get_value("met"), None);
    ctx.set_value("met", true);
    assert_eq!(ctx.get_value("met"), Some(true));
    ctx.set_value("met", false);
    assert_eq!(ctx.get_value("met"), Some(false));
    ctx.set_value("other", true);
    assert_eq!(ctx.get_value("met"), Some(false));
    assert_eq!(ctx.get_value("other"), Some(true));
}

#[test]
fn runner_error_messages_name_states_and_nodes() {
    let e = DialogRunnerError::WrongState {
        current: DialogState::Start,
        expected: DialogState::Waiting,
    };
    let m = e.message();
    assert!(m.contains("Start"));
    assert!(m.contains("Waiting"));
    let u = DialogRunnerError::UnknownNodeChosen { node_name: String::from("Lost") };
    assert!(u.message().contains("Lost"));
}
