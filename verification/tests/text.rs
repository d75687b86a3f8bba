use lsystem::document::{start_key_name, LoadError};
use lsystem::instruction::{Instruction, Magnitude};
use lsystem::json::{digit_runs_fit_in, MAX_DIGIT_RUN};
use lsystem::system::LSystem;
use lsystem::validation::Place;

fn grammar_text(iters: &str, alphabet: &str, start: &str, rules: &str, interp: &str) -> String {
    format!(
        "{{\"iters\": {}, \"alphabet\": {}, \"{}\": {}, \"rules\": {}, \"interpretation\": {}}}",
        iters,
        alphabet,
        start_key_name(),
        start,
        rules,
        interp
    )
}

fn words(symbols: &[&str]) -> Vec<String> {
    symbols.iter().map(|s| s.to_string()).collect()
}

fn decimal(positive: bool, mantissa: u64, exponent: i16) -> Magnitude {
    Magnitude { positive, mantissa, exponent }
}

#[test]
fn a_grammar_file_loads() {
    let text = grammar_text(
        "3",
        "[\"F\", \"+\", \"-\", \"[\", \"]\"]",
        "[\"F\", \"+\", \"F\"]",
        "{\"F\": [\"F\", \"[\", \"-\", \"F\", \"]\"]}",
        "{\"F\": [{\"forward\": 10}], \"+\": [{\"left\": 60.5}], \"-\": [{\"right\": null}], \
         \"[\": [{\"push\": null}], \"]\": [{\"pop\": null}, {\"backward\": 2}]}",
    );
    let system = LSystem::from_file(&text).unwrap();
    assert_eq!(system.iters, 3);
    assert_eq!(system.alphabet, words(&["F", "+", "-", "[", "]"]));
    assert_eq!(system.initiator, words(&["F", "+", "F"]));
    assert_eq!(system.rules.get(&"F".to_string()), Some(&words(&["F", "[", "-", "F", "]"])));
    assert_eq!(
        system.interp.get(&"F".to_string()),
        Some(&vec![Instruction::Forward(decimal(true, 10, 0))])
    );
    assert_eq!(
        system.interp.get(&"+".to_string()),
        Some(&vec![Instruction::Left(decimal(true, 605, -1))])
    );
    assert_eq!(
        system.interp.get(&"-".to_string()),
        Some(&vec![Instruction::Right(decimal(true, 0, 0))])
    );
    assert_eq!(
        system.interp.get(&"]".to_string()),
        Some(&vec![Instruction::Pop, Instruction::Back(decimal(true, 2, 0))])
    );
    assert_eq!(system.validate(), Ok(()));
    let first = system.step(None).unwrap();
    assert_eq!(
        first,
        words(&["F", "[", "-", "F", "]", "+", "F", "[", "-", "F", "]"])
    );
    assert_eq!(system.generations().len(), 3);
}

#[test]
fn a_text_that_is_no_json_is_refused() {
    assert_eq!(LSystem::from_file("{\"iters\": "), Err(LoadError::NotJson));
    assert_eq!(LSystem::from_file(""), Err(LoadError::NotJson));
    assert_eq!(LSystem::from_file("[1, 2"), Err(LoadError::NotJson));
    assert_eq!(LoadError::NotJson.message(), "document must be valid JSON");
}

#[test]
fn json_that_is_no_grammar_is_refused() {
    assert_eq!(LSystem::from_file("[]"), Err(LoadError::IterationsNotNumber));
    assert_eq!(LSystem::from_file("{}"), Err(LoadError::IterationsNotNumber));
    assert_eq!(LSystem::from_file("{\"iters\": 2}"), Err(LoadError::AlphabetNotArray));
    assert_eq!(
        LSystem::from_file("{\"iters\": 2, \"alphabet\": [\"A\"]}"),
        Err(LoadError::StartNotArray)
    );
    let text = grammar_text("2", "[\"A\"]", "[\"A\"]", "[]", "{}");
    assert_eq!(LSystem::from_file(&text), Err(LoadError::RulesNotObject));
    let text = grammar_text("2", "[\"A\"]", "[\"A\", 1]", "{}", "{}");
    assert_eq!(LSystem::from_file(&text), Err(LoadError::StartElementNotString));
    let text = grammar_text("2", "[\"A\"]", "[\"A\"]", "{}", "{\"A\": [{\"jump\": 1}]}");
    assert_eq!(LSystem::from_file(&text), Err(LoadError::UnrecognizedName));
    let text = grammar_text("2", "[\"A\"]", "[\"A\"]", "{}", "{\"A\": [{\"push\": 1, \"pop\": 1}]}");
    assert_eq!(LSystem::from_file(&text), Err(LoadError::TooManyPairs));
    let text = grammar_text("2", "[\"A\"]", "[\"A\"]", "{}", "{\"A\": [{}]}");
    assert_eq!(
        LSystem::from_file(&text).unwrap().interp.get(&"A".to_string()),
        Some(&vec![Instruction::Nop])
    );
}

#[test]
fn iters_in_a_file_is_a_non_negative_integer() {
    let with = |iters: &str| LSystem::from_file(&grammar_text(iters, "[]", "[]", "{}", "{}"));
    assert_eq!(with("0").unwrap().iters, 0);
    assert_eq!(with("12").unwrap().iters, 12);
    assert_eq!(with("1e2").unwrap().iters, 100);
    assert_eq!(with("12.0").unwrap().iters, 12);
    assert_eq!(with("2.5"), Err(LoadError::IterationsNotNumber));
    assert_eq!(with("1e20"), Err(LoadError::IterationsNotNumber));
    assert_eq!(with("-1"), Err(LoadError::IterationsNotNumber));
    assert_eq!(with("\"3\""), Err(LoadError::IterationsNotNumber));
    assert_eq!(with("null"), Err(LoadError::IterationsNotNumber));
    assert_eq!(with("true"), Err(LoadError::IterationsNotNumber));
}

#[test]
fn a_rule_defined_twice_in_a_file_keeps_the_later() {
    let text = grammar_text(
        "1",
        "[\"A\", \"B\"]",
        "[\"A\"]",
        "{\"A\": [\"B\"], \"B\": [\"B\"], \"A\": [\"A\", \"A\"]}",
        "{}",
    );
    let system = LSystem::from_file(&text).unwrap();
    assert_eq!(system.rules.len(), 2);
    assert_eq!(system.step(None), Some(words(&["A", "A"])));
}

#[test]
fn a_file_with_two_unknown_symbols_reports_both() {
    let text = grammar_text("1", "[\"A\"]", "[\"Q\"]", "{\"A\": [\"A\", \"R\"]}", "{}");
    let system = LSystem::from_file(&text).unwrap();
    let report = system.validate().unwrap_err();
    assert_eq!(report.len(), 2);
    assert!(report.iter().any(|v| v.place == Place::Start && v.symbol == "Q"));
    assert!(report.iter().any(|v| v.place == Place::RuleOutput && v.symbol == "R"));
    let all: Vec<String> = report.iter().map(|v| v.message()).collect();
    let all = all.join("\n");
    assert!(all.contains("Q") && all.contains("R"));
}

#[test]
fn a_cycle_in_a_file_ends_with_the_generation_count() {
    let text = grammar_text("3", "[\"A\", \"B\"]", "[\"A\"]", "{\"A\": [\"B\"], \"B\": [\"A\"]}", "{}");
    let mut system = LSystem::from_file(&text).unwrap();
    assert_eq!(system.generations().last(), Some(&words(&["B"])));
    system.iters = 4;
    assert_eq!(system.generations().last(), Some(&words(&["A"])));
}

#[test]
fn digit_runs_are_measured_over_the_whole_text() {
    assert_eq!(MAX_DIGIT_RUN, 32767);
    assert!(digit_runs_fit_in(""));
    assert!(digit_runs_fit_in("{\"iters\": 12}"));
    assert!(digit_runs_fit_in(&"7".repeat(32767)));
    assert!(!digit_runs_fit_in(&"7".repeat(32768)));
    let two_runs = format!("{}.{}", "1".repeat(20000), "0".repeat(20000));
    assert!(digit_runs_fit_in(&two_runs));
    let late = format!("\u{e9}t\u{e9} {}x{}", "9".repeat(5), "0".repeat(32768));
    assert!(!digit_runs_fit_in(&late));
    let colon = format!("{}:{}", "9".repeat(32767), "/".repeat(40000));
    assert!(digit_runs_fit_in(&colon));
}

#[test]
fn a_fraction_of_the_longest_run_is_parsed() {
    let iters = format!("0.{}", "0".repeat(32767));
    let text = grammar_text(&iters, "[]", "[]", "{}", "{}");
    assert_eq!(LSystem::from_file(&text).unwrap().iters, 0);
    let iters = format!("120.{}", "0".repeat(300));
    let text = grammar_text(&iters, "[]", "[]", "{}", "{}");
    assert_eq!(LSystem::from_file(&text).unwrap().iters, 120);
}

#[test]
fn a_text_with_a_longer_run_of_digits_is_refused() {
    let iters = format!("0.{}", "0".repeat(32769));
    let text = grammar_text(&iters, "[]", "[]", "{}", "{}");
    assert_eq!(LSystem::from_file(&text), Err(LoadError::DigitRunTooLong));
    let iters = format!("0.{}", "0".repeat(32768));
    let text = grammar_text(&iters, "[]", "[]", "{}", "{}");
    assert_eq!(LSystem::from_file(&text), Err(LoadError::DigitRunTooLong));
    let symbol = format!("[\"{}\"]", "4".repeat(40000));
    let text = grammar_text("1", &symbol, "[]", "{}", "{}");
    assert_eq!(LSystem::from_file(&text), Err(LoadError::DigitRunTooLong));
    assert_eq!(LSystem::from_file(&"5".repeat(32768)), Err(LoadError::DigitRunTooLong));
    assert_eq!(
        LoadError::DigitRunTooLong.message(),
        "document must hold no more than 32767 digits in a row"
    );
}
