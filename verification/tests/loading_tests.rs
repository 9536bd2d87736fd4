use yarn_dialog::components::{ConditionType, LineType};
use yarn_dialog::errors::YarnSpinnerDialogLoaderError;
use yarn_dialog::parsing::load_from_file;

fn two_node_script() -> &'static str {
    "title: Start\n\
     ---\n\
     Narrator: Hello there #mood:casual\n\
     <<jump Finale>>\n\
     ===\n\
     title: Finale\n\
     ---\n\
     Narrator: Goodbye\n\
     ===\n"
}

#[test]
fn load_parses_every_section() {
    let nodes = load_from_file(two_node_script()).unwrap();
    assert_eq!(nodes.len(), 2);
    assert_eq!(nodes[0].title, "Start");
    assert_eq!(nodes[1].title, "Finale");
    assert_eq!(nodes[0].lines.len(), 2);
    assert_eq!(nodes[1].lines.len(), 1);
}

#[test]
fn round_trip_targets_dereference_to_matching_titles() {
    let nodes = load_from_file(two_node_script()).unwrap();
    for node in &nodes {
        for line in &node.lines {
            match line {
                LineType::JumpLine { node_title, node: ix } => {
                    assert_eq!(&nodes[*ix].title, node_title);
                }
                LineType::OptionLine { possibilities, .. } => {
                    for p in possibilities {
                        assert_eq!(&nodes[p.jump_to_node].title, &p.jump_to_node_title);
                    }
                }
                _ => {}
            }
        }
    }
}

#[test]
fn dialog_line_carries_speaker_text_and_tags() {
    let nodes = load_from_file(two_node_script()).unwrap();
    match &nodes[0].lines[0] {
        LineType::DialogLine { speaker, text, tags } => {
            assert_eq!(speaker, "Narrator");
            assert_eq!(text, "Hello there");
            assert_eq!(tags.len(), 1);
            assert_eq!(tags[0].name, "mood");
            assert_eq!(tags[0].value, "casual");
        }
        other => panic!("expected a dialog line, got {:?}", other),
    }
}

#[test]
fn set_command_and_option_lines_parse() {
    let script = "title: Start\n\
                  ---\n\
                  <<set $met to true>>\n\
                  <<play_sound door creak>>\n\
                  -> Leave <<if $met == false>>\n\
                  <<jump Start>>\n\
                  -> Stay\n\
                  <<jump Start>>\n\
                  ===\n";
    let nodes = load_from_file(script).unwrap();
    assert_eq!(nodes.len(), 1);
    assert_eq!(nodes[0].lines.len(), 3);
    match &nodes[0].lines[0] {
        LineType::SetLine { variable_name, value } => {
            assert_eq!(variable_name, "met");
            assert!(*value);
        }
        other => panic!("expected a set line, got {:?}", other),
    }
    match &nodes[0].lines[1] {
        LineType::CommandLine { func_name, args } => {
            assert_eq!(func_name, "play_sound");
            assert_eq!(args, &vec![String::from("door"), String::from("creak")]);
        }
        other => panic!("expected a command line, got {:?}", other),
    }
    match &nodes[0].lines[2] {
        LineType::OptionLine { speaker, possibilities } => {
            assert_eq!(speaker, "Player");
            assert_eq!(possibilities.len(), 2);
            assert_eq!(possibilities[0].text, "Leave");
            let cond = possibilities[0].condition.as_ref().unwrap();
            assert_eq!(cond.variable_name, "met");
            assert_eq!(cond.condition, ConditionType::Equal);
            assert!(!cond.value);
            assert_eq!(possibilities[1].text, "Stay");
            assert!(possibilities[1].condition.is_none());
            assert!(!possibilities[0].used);
            assert!(!possibilities[1].used);
        }
        other => panic!("expected an option line, got {:?}", other),
    }
}

#[test]
fn malformed_line_is_a_parse_error_with_its_index() {
    let script = "title: Start\n\
                  ---\n\
                  <<set $broken>>\n\
                  ===\n";
    match load_from_file(script) {
        Err(YarnSpinnerDialogLoaderError::ParsingError { line }) => assert_eq!(line, 2),
        other => panic!("expected a parse error, got {:?}", other),
    }
}

#[test]
fn dialog_line_without_speaker_has_empty_speaker() {
    let script = "title: Start\n\
                  ---\n\
                  Just narration, no speaker\n\
                  ===\n";
    let nodes = load_from_file(script).unwrap();
    match &nodes[0].lines[0] {
        LineType::DialogLine { speaker, text, tags } => {
            assert_eq!(speaker, "");
            assert_eq!(text, "Just narration, no speaker");
            assert!(tags.is_empty());
        }
        other => panic!("expected a dialog line, got {:?}", other),
    }
}

#[test]
fn speakerless_dialog_line_keeps_its_tags() {
    let script = "title: Start\n\
                  ---\n\
                  Hello there #mood:casual\n\
                  ===\n";
    let nodes = load_from_file(script).unwrap();
    match &nodes[0].lines[0] {
        LineType::DialogLine { speaker, text, tags } => {
            assert_eq!(speaker, "");
            assert_eq!(text, "Hello there");
            assert_eq!(tags.len(), 1);
            assert_eq!(tags[0].name, "mood");
            assert_eq!(tags[0].value, "casual");
        }
        other => panic!("expected a dialog line, got {:?}", other),
    }
}

#[test]
fn empty_section_is_rejected() {
    let script = "title: Start\n---\n===\n";
    assert!(matches!(
        load_from_file(script),
        Err(YarnSpinnerDialogLoaderError::ParsingError { .. })
    ));
}

#[test]
fn script_without_sections_is_rejected() {
    assert!(matches!(
        load_from_file("\n  \n"),
        Err(YarnSpinnerDialogLoaderError::ParsingError { .. })
    ));
}

#[test]
fn unknown_jump_target_is_rejected_and_yields_no_graph() {
    let script = "title: Start\n\
                  ---\n\
                  <<jump Nowhere>>\n\
                  ===\n";
    match load_from_file(script) {
        Err(YarnSpinnerDialogLoaderError::UnknownNode { title }) => {
            assert_eq!(title, "Nowhere");
        }
        other => panic!("expected an unknown node error, got {:?}", other),
    }
}

#[test]
fn duplicate_titles_are_rejected() {
    let script = "title: Start\n\
                  ---\n\
                  A: one\n\
                  ===\n\
                  title: Start\n\
                  ---\n\
                  A: two\n\
                  ===\n";
    match load_from_file(script) {
        Err(YarnSpinnerDialogLoaderError::DuplicateNodeTitle { title }) => {
            assert_eq!(title, "Start");
        }
        other => panic!("expected a duplicate title error, got {:?}", other),
    }
}

#[test]
fn blank_lines_and_indentation_are_tolerated() {
    let script = "\n  title: Start  \n\n  ---  \n\n  Narrator: Hi  \n\n  ===  \n\n";
    let nodes = load_from_file(script).unwrap();
    assert_eq!(nodes.len(), 1);
    assert_eq!(nodes[0].title, "Start");
}

#[test]
fn condition_type_from_str_accepts_both_operators() {
    assert_eq!(ConditionType::from_str("=="), Ok(ConditionType::Equal));
    assert_eq!(ConditionType::from_str("!="), Ok(ConditionType::NotEqual));
    assert_eq!(ConditionType::from_str("<>"), Err(()));
    assert_eq!(ConditionType::from_str(""), Err(()));
}

#[test]
fn loader_error_messages_name_the_culprit() {
    let e = YarnSpinnerDialogLoaderError::UnknownNode { title: String::from("Lost") };
    assert!(e.message().contains("Lost"));
    let d = YarnSpinnerDialogLoaderError::DuplicateNodeTitle { title: String::from("Twice") };
    assert!(d.message().contains("Twice"));
}
