use lsystem::instruction::{Instruction, Magnitude};
use lsystem::system::LSystem;
use lsystem::table::{Entry, Table};

fn line(symbols: &[&str]) -> Vec<String> {
    symbols.iter().map(|s| s.to_string()).collect()
}

fn rules(pairs: &[(&str, &[&str])]) -> Table<Vec<String>> {
    let mut table = Table::new();
    for (input, output) in pairs {
        table.insert(input.to_string(), line(output));
    }
    table
}

fn grammar(alphabet: &[&str], start: &[&str], pairs: &[(&str, &[&str])], iters: u64) -> LSystem {
    let mut system = LSystem::default();
    system.iters = iters;
    system.alphabet = line(alphabet);
    system.initiator = line(start);
    system.rules = rules(pairs);
    system
}

fn units(n: u64) -> Magnitude {
    Magnitude { positive: true, mantissa: n, exponent: 0 }
}

#[test]
fn default_system_is_empty() {
    let system = LSystem::default();
    assert_eq!(system.iters, 0);
    assert!(system.alphabet.is_empty());
    assert!(system.initiator.is_empty());
    assert_eq!(system.rules.len(), 0);
    assert_eq!(system.interp.len(), 0);
    assert_eq!(system.step(None), Some(Vec::new()));
}

#[test]
fn step_from_the_start_applies_the_rule() {
    let system = grammar(&["A", "B"], &["A"], &[("A", &["A", "B"])], 2);
    assert_eq!(system.step(None), Some(line(&["A", "B"])));
}

#[test]
fn step_passes_a_symbol_without_rule_through() {
    let system = grammar(&["A", "B"], &["A"], &[("A", &["A", "B"])], 2);
    assert_eq!(system.step(Some(line(&["A", "B"]))), Some(line(&["A", "B", "B"])));
}

#[test]
fn second_generation_from_the_start() {
    let system = grammar(&["A", "B"], &["A"], &[("A", &["A", "B"])], 2);
    let first = system.step(None);
    let second = system.step(first);
    assert_eq!(second, Some(line(&["A", "B", "B"])));
    assert_eq!(system.generation(2), line(&["A", "B", "B"]));
    assert_eq!(system.generation(0), line(&["A"]));
}

#[test]
fn generations_lists_every_generation_in_order() {
    let system = grammar(&["A", "B"], &["A"], &[("A", &["A", "B"])], 3);
    let lines = system.generations();
    assert_eq!(
        lines,
        vec![line(&["A", "B"]), line(&["A", "B", "B"]), line(&["A", "B", "B", "B"])]
    );
}

#[test]
fn generations_of_zero_iterations_is_empty() {
    let system = grammar(&["A"], &["A"], &[("A", &["A", "A"])], 0);
    assert!(system.generations().is_empty());
}

#[test]
fn step_of_an_empty_sequence_is_empty() {
    let system = grammar(&["A"], &["A"], &[("A", &["A", "A"])], 1);
    assert_eq!(system.step(Some(Vec::new())), Some(Vec::new()));
    assert_eq!(system.rewrite(&Vec::new()), Vec::<String>::new());
}

#[test]
fn a_symbol_without_rule_stays_itself() {
    let system = grammar(&["A", "B"], &["A", "B", "A"], &[("A", &["A", "A"])], 3);
    let third = system.generation(3);
    let mut expected = line(&["A"; 8]);
    expected.push("B".to_string());
    expected.extend(line(&["A"; 8]));
    assert_eq!(third, expected);
    assert_eq!(third.iter().filter(|s| s.as_str() == "B").count(), 1);
    let alone = grammar(&["B"], &["B"], &[], 5);
    assert_eq!(alone.generation(5), line(&["B"]));
}

#[test]
fn a_symbol_outside_the_alphabet_is_rewritten_too() {
    let system = grammar(&["A"], &["Z"], &[("A", &["A", "A"])], 1);
    assert_eq!(system.step(None), Some(line(&["Z"])));
}

#[test]
fn expansion_blocks_keep_the_order_of_the_symbols() {
    let system = grammar(
        &["X", "Y", "Z", "a", "b", "c"],
        &["X", "Y", "Z"],
        &[("X", &["a", "a"]), ("Z", &["c", "b"]), ("Y", &[])],
        1,
    );
    assert_eq!(system.step(None), Some(line(&["a", "a", "c", "b"])));
    let other = grammar(&["X", "Y", "Z", "a"], &["X", "Y", "Z"], &[("Y", &["a", "Y", "a"])], 1);
    assert_eq!(other.step(None), Some(line(&["X", "a", "Y", "a", "Z"])));
}

#[test]
fn a_cycle_alternates_and_ends_with_the_generation_count() {
    let system = grammar(&["A", "B"], &["A"], &[("A", &["B"]), ("B", &["A"])], 3);
    assert_eq!(system.generation(3), line(&["B"]));
    assert_eq!(system.generation(4), line(&["A"]));
    let lines = system.generations();
    assert_eq!(lines.len(), 3);
    assert_eq!(lines[2], line(&["B"]));
}

#[test]
fn a_later_rule_for_the_same_symbol_replaces_the_earlier() {
    let system = grammar(&["A", "B"], &["A"], &[("A", &["B"]), ("A", &["A", "A"])], 1);
    assert_eq!(system.rules.len(), 1);
    assert_eq!(system.step(None), Some(line(&["A", "A"])));
}

#[test]
fn table_finds_what_was_inserted() {
    let mut table: Table<u64> = Table::new();
    table.insert("F".to_string(), 1);
    table.insert("G".to_string(), 2);
    table.insert("F".to_string(), 3);
    assert_eq!(table.len(), 2);
    assert_eq!(table.find(&"F".to_string()), Some(0));
    assert_eq!(table.find(&"G".to_string()), Some(1));
    assert_eq!(table.find(&"H".to_string()), None);
    assert_eq!(table.get(&"F".to_string()), Some(&3));
    assert_eq!(table.get(&"H".to_string()), None);
    assert_eq!(table.entries[1], Entry { key: "G".to_string(), value: 2 });
}

#[test]
fn instructions_follow_the_sequence() {
    let mut system = grammar(&["F", "+"], &["F"], &[], 0);
    system.interp.insert("F".to_string(), vec![Instruction::Forward(units(10))]);
    system.interp.insert("+".to_string(), vec![Instruction::Left(units(90)), Instruction::Push]);
    let drawn = system.instructions(&line(&["F", "+", "F"]));
    assert_eq!(
        drawn,
        vec![
            Instruction::Forward(units(10)),
            Instruction::Left(units(90)),
            Instruction::Push,
            Instruction::Forward(units(10)),
        ]
    );
}

#[test]
fn a_symbol_without_interpretation_draws_nothing() {
    let mut system = grammar(&["F", "X"], &["F"], &[], 0);
    system.interp.insert("F".to_string(), vec![Instruction::Forward(units(1))]);
    let with = system.instructions(&line(&["F", "X", "F"]));
    let without = system.instructions(&line(&["F", "F"]));
    assert_eq!(with, without);
    assert_eq!(with.len(), 2);
    assert!(system.instructions(&line(&["X"])).is_empty());
    assert!(system.instructions(&Vec::new()).is_empty());
}
