use lsystem::instruction::Instruction;
use lsystem::symbols::{contains_symbol, copy_symbols, insert_symbol};
use lsystem::system::LSystem;
use lsystem::validation::{Place, Violation};

fn words(symbols: &[&str]) -> Vec<String> {
    symbols.iter().map(|s| s.to_string()).collect()
}

fn plant() -> LSystem {
    let mut system = LSystem::default();
    system.iters = 2;
    system.alphabet = words(&["F", "+", "-"]);
    system.initiator = words(&["F", "+", "F"]);
    system.rules.insert("F".to_string(), words(&["F", "-", "F"]));
    system.interp.insert("F".to_string(), vec![Instruction::Push]);
    system
}

fn unknown(place: Place, symbol: &str) -> Violation {
    Violation { place, symbol: symbol.to_string() }
}

#[test]
fn a_closed_system_is_valid() {
    assert_eq!(plant().validate(), Ok(()));
    assert_eq!(LSystem::default().validate(), Ok(()));
}

#[test]
fn validation_is_the_same_each_time() {
    let system = plant();
    assert_eq!(system.validate(), system.validate());
    let mut broken = plant();
    broken.initiator.push("Q".to_string());
    assert_eq!(broken.validate(), broken.validate());
    assert!(broken.validate().is_err());
}

#[test]
fn an_unknown_start_symbol_is_reported() {
    let mut system = plant();
    system.initiator.push("Q".to_string());
    assert_eq!(system.validate(), Err(vec![unknown(Place::Start, "Q")]));
}

#[test]
fn an_unknown_rule_input_is_reported() {
    let mut system = plant();
    system.rules.insert("G".to_string(), words(&["F"]));
    assert_eq!(system.validate(), Err(vec![unknown(Place::RuleInput, "G")]));
}

#[test]
fn an_unknown_rule_output_is_reported() {
    let mut system = plant();
    system.rules.insert("+".to_string(), words(&["F", "R", "+"]));
    assert_eq!(system.validate(), Err(vec![unknown(Place::RuleOutput, "R")]));
}

#[test]
fn an_unknown_interpretation_key_is_reported() {
    let mut system = plant();
    system.interp.insert("T".to_string(), vec![Instruction::Pop]);
    assert_eq!(system.validate(), Err(vec![unknown(Place::Interpretation, "T")]));
}

#[test]
fn every_violation_is_reported_at_once() {
    let mut system = plant();
    system.initiator = words(&["Q", "F", "Q"]);
    system.rules.insert("G".to_string(), words(&["R", "F"]));
    system.interp.insert("T".to_string(), Vec::new());
    let report = system.validate().unwrap_err();
    assert_eq!(
        report,
        vec![
            unknown(Place::Start, "Q"),
            unknown(Place::Start, "Q"),
            unknown(Place::RuleInput, "G"),
            unknown(Place::RuleOutput, "R"),
            unknown(Place::Interpretation, "T"),
        ]
    );
}

#[test]
fn a_report_names_the_start_symbol_and_the_rule_output() {
    let mut system = LSystem::default();
    system.alphabet = words(&["A"]);
    system.initiator = words(&["Q"]);
    system.rules.insert("A".to_string(), words(&["A", "R"]));
    let report = system.validate().unwrap_err();
    let messages: Vec<String> = report.iter().map(|v| v.message()).collect();
    assert_eq!(messages.len(), 2);
    assert!(messages.iter().any(|m| m.contains("Q")));
    assert!(messages.iter().any(|m| m.contains("R")));
    let joined = messages.join(";");
    assert!(joined.contains("Unknown symbol Q in "));
    assert!(joined.contains("Unknown symbol R as output in production rule"));
}

#[test]
fn messages_say_where_the_symbol_stands() {
    assert_eq!(
        unknown(Place::RuleInput, "G").message(),
        "Unknown symbol G as input in production rule"
    );
    assert_eq!(
        unknown(Place::RuleOutput, "R").message(),
        "Unknown symbol R as output in production rule"
    );
    assert_eq!(unknown(Place::Interpretation, "T").message(), "Unknown symbol T as interpretation");
    let start = unknown(Place::Start, "Q").message();
    assert!(start.starts_with("Unknown symbol Q in a"));
    assert_eq!(start.len(), "Unknown symbol Q in ".len() + 5);
}

#[test]
fn symbols_are_compared_exactly() {
    let alphabet = words(&["F", "f", " F"]);
    assert!(contains_symbol(&alphabet, &"F".to_string()));
    assert!(contains_symbol(&alphabet, &"f".to_string()));
    assert!(!contains_symbol(&alphabet, &"F ".to_string()));
    assert!(!contains_symbol(&Vec::new(), &"F".to_string()));
}

#[test]
fn insert_symbol_keeps_each_symbol_once() {
    let mut alphabet = words(&["A"]);
    insert_symbol(&mut alphabet, "B".to_string());
    insert_symbol(&mut alphabet, "A".to_string());
    assert_eq!(alphabet, words(&["A", "B"]));
    assert_eq!(copy_symbols(&alphabet), alphabet);
}
