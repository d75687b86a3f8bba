//! Loading: from a decoded document to an L-system, or to the reason why
//! the document is none.

use vstd::prelude::*;
use vstd::string::StringExecFns;
use crate::document::{
    decode_iterations, decode_symbols, field, iterations_of, lookup, start_key, start_key_name,
    symbols_of, LoadError, Value,
};
use crate::instruction::{Instruction, Magnitude};
use vstd::string::StringSliceAdditionalSpecFns;
use crate::json::{digit_runs_fit, digit_runs_fit_in, node, node_of, parse_text, parsed};
use crate::symbols::{insert_symbol, views, Symbol};
use crate::system::{drawn_views, rule_views, Grammar, LSystem};
use crate::table::{Entry, Table};

verus! {

/// The magnitude that an instruction's value gives: a number, or zero for
/// a null.
pub open spec fn magnitude_of(value: Value) -> Option<Magnitude> {
    match value {
        Value::Number(m) => Some(m),
        Value::Null => Some(Magnitude { positive: true, mantissa: 0, exponent: 0 }),
        _ => None,
    }
}

/// The instruction of a given name, if it is one of the six.
pub open spec fn named_instruction(name: Seq<char>, m: Magnitude) -> Option<Instruction> {
    if name == "forward"@ {
        Some(Instruction::Forward(m))
    } else if name == "backward"@ {
        Some(Instruction::Back(m))
    } else if name == "left"@ {
        Some(Instruction::Left(m))
    } else if name == "right"@ {
        Some(Instruction::Right(m))
    } else if name == "push"@ {
        Some(Instruction::Push)
    } else if name == "pop"@ {
        Some(Instruction::Pop)
    } else {
        None
    }
}

/// The instruction that an object holds: its one key is the name and the
/// key's value is a number or null; an object without a key holds `Nop`.
pub open spec fn instruction_of_pairs(pairs: Table<Value>) -> Result<Instruction, LoadError> {
    if pairs.entries@.len() > 1 {
        Err(LoadError::TooManyPairs)
    } else if pairs.entries@.len() == 0 {
        Ok(Instruction::Nop)
    } else {
        match magnitude_of(pairs.entries@[0].value) {
            None => Err(LoadError::MagnitudeNotNumber),
            Some(m) => match named_instruction(pairs.entries@[0].key@, m) {
                Some(instruction) => Ok(instruction),
                None => Err(LoadError::UnrecognizedName),
            },
        }
    }
}

/// The instruction that a node holds: the node must be an object.
pub open spec fn instruction_of(value: Value) -> Result<Instruction, LoadError> {
    match value {
        Value::Object(pairs) => instruction_of_pairs(pairs),
        _ => Err(LoadError::InterpretationElementNotObject),
    }
}

/// The instructions that a list of nodes holds, or the first error.
pub open spec fn instructions_of(items: Seq<Value>) -> Result<Seq<Instruction>, LoadError>
    decreases items.len(),
{
    if items.len() == 0 {
        Ok(Seq::empty())
    } else {
        match instructions_of(items.drop_last()) {
            Err(e) => Err(e),
            Ok(front) => match instruction_of(items.last()) {
                Err(e) => Err(e),
                Ok(instruction) => Ok(front.push(instruction)),
            },
        }
    }
}

/// What one symbol draws, as a node holds it: an array of instructions.
pub open spec fn drawing_of(value: Value) -> Result<Seq<Instruction>, LoadError> {
    match value {
        Value::Array(items) => instructions_of(items@),
        _ => Err(LoadError::InterpretationOutputNotArray),
    }
}

/// The rule table that the members of an object hold, or the first error.
/// A later member overrides an earlier one with the same key.
pub open spec fn rules_of_members(members: Seq<Entry<Value>>) -> Result<
    Map<Symbol, Seq<Symbol>>,
    LoadError,
>
    decreases members.len(),
{
    if members.len() == 0 {
        Ok(Map::empty())
    } else {
        match rules_of_members(members.drop_last()) {
            Err(e) => Err(e),
            Ok(front) => match symbols_of(
                members.last().value,
                LoadError::RuleOutputNotArray,
                LoadError::RuleOutputElementNotString,
            ) {
                Err(e) => Err(e),
                Ok(output) => Ok(front.insert(members.last().key@, output)),
            },
        }
    }
}

/// The rule table that a node holds: it must be an object.
pub open spec fn rules_of(value: Value) -> Result<Map<Symbol, Seq<Symbol>>, LoadError> {
    match value {
        Value::Object(members) => rules_of_members(members.entries@),
        _ => Err(LoadError::RulesNotObject),
    }
}

/// The interpretation table that the members of an object hold, or the
/// first error.
pub open spec fn interp_of_members(members: Seq<Entry<Value>>) -> Result<
    Map<Symbol, Seq<Instruction>>,
    LoadError,
>
    decreases members.len(),
{
    if members.len() == 0 {
        Ok(Map::empty())
    } else {
        match interp_of_members(members.drop_last()) {
            Err(e) => Err(e),
            Ok(front) => match drawing_of(members.last().value) {
                Err(e) => Err(e),
                Ok(drawn) => Ok(front.insert(members.last().key@, drawn)),
            },
        }
    }
}

/// The interpretation table that a node holds: it must be an object.
pub open spec fn interp_of(value: Value) -> Result<Map<Symbol, Seq<Instruction>>, LoadError> {
    match value {
        Value::Object(members) => interp_of_members(members.entries@),
        _ => Err(LoadError::InterpretationNotObject),
    }
}

/// The grammar that a document holds. Its fields are read in this order,
/// and the first that fails decides the error: the generation count, the
/// alphabet, the starting sequence, the rules, the interpretation.
pub open spec fn grammar_of(doc: Value) -> Result<Grammar, LoadError> {
    match iterations_of(field(doc, "iters"@)) {
        Err(e) => Err(e),
        Ok(iters) => match symbols_of(
            field(doc, "alphabet"@),
            LoadError::AlphabetNotArray,
            LoadError::AlphabetElementNotString,
        ) {
            Err(e) => Err(e),
            Ok(alphabet) => match symbols_of(
                field(doc, start_key()),
                LoadError::StartNotArray,
                LoadError::StartElementNotString,
            ) {
                Err(e) => Err(e),
                Ok(start) => match rules_of(field(doc, "rules"@)) {
                    Err(e) => Err(e),
                    Ok(rules) => match interp_of(field(doc, "interpretation"@)) {
                        Err(e) => Err(e),
                        Ok(interp) => Ok(
                            Grammar { iters, alphabet: alphabet.to_set(), start, rules, interp },
                        ),
                    },
                },
            },
        },
    }
}

/// The instruction called `name`, with magnitude `m`.
pub fn instruction_named(name: &String, m: Magnitude) -> (found: Option<Instruction>)
    ensures
        found == named_instruction(name@, m),
{
    if *name == String::from_str("forward") {
        Some(Instruction::Forward(m))
    } else if *name == String::from_str("backward") {
        Some(Instruction::Back(m))
    } else if *name == String::from_str("left") {
        Some(Instruction::Left(m))
    } else if *name == String::from_str("right") {
        Some(Instruction::Right(m))
    } else if *name == String::from_str("push") {
        Some(Instruction::Push)
    } else if *name == String::from_str("pop") {
        Some(Instruction::Pop)
    } else {
        None
    }
}

impl Instruction {
    /// Decodes the instruction that a JSON object holds.
    pub fn from_json(pairs: &Table<Value>) -> (result: Result<Instruction, LoadError>)
        ensures
            result == instruction_of_pairs(*pairs),
    {
        if pairs.entries.len() > 1 {
            Err(LoadError::TooManyPairs)
        } else if pairs.entries.len() == 0 {
            Ok(Instruction::Nop)
        } else {
            let pair = &pairs.entries[0];
            let magnitude = match &pair.value {
                Value::Number(m) => Some(*m),
                Value::Null => Some(Magnitude::zero()),
                _ => None,
            };
            match magnitude {
                None => Err(LoadError::MagnitudeNotNumber),
                Some(m) => match instruction_named(&pair.key, m) {
                    Some(instruction) => Ok(instruction),
                    None => Err(LoadError::UnrecognizedName),
                },
            }
        }
    }
}

/// Decodes one instruction.
pub fn decode_instruction(value: &Value) -> (result: Result<Instruction, LoadError>)
    ensures
        result == instruction_of(*value),
{
    match value {
        Value::Object(pairs) => Instruction::from_json(pairs),
        _ => Err(LoadError::InterpretationElementNotObject),
    }
}

/// Decodes what one symbol draws.
pub fn decode_drawing(value: &Value) -> (result: Result<Vec<Instruction>, LoadError>)
    ensures
        match drawing_of(*value) {
            Ok(drawn) => result matches Ok(out) && out@ == drawn,
            Err(e) => result matches Err(got) && got == e,
        },
{
    match value {
        Value::Array(items) => {
            let mut out: Vec<Instruction> = Vec::new();
            let mut failure: Option<LoadError> = None;
            let mut i: usize = 0;
            while i < items.len()
                invariant
                    i <= items.len(),
                    match instructions_of(items@.take(i as int)) {
                        Ok(drawn) => failure is None && out@ == drawn,
                        Err(e) => failure == Some(e),
                    },
                decreases items.len() - i,
            {
                proof {
                    let next = items@.take(i as int + 1);
                    assert(next.drop_last() =~= items@.take(i as int));
                    assert(next.last() == items@[i as int]);
                }
                if failure.is_none() {
                    match decode_instruction(&items[i]) {
                        Ok(instruction) => {
                            out.push(instruction);
                        },
                        Err(e) => {
                            failure = Some(e);
                        },
                    }
                }
                i += 1;
            }
            assert(items@.take(i as int) =~= items@);
            match failure {
                None => Ok(out),
                Some(e) => Err(e),
            }
        },
        _ => Err(LoadError::InterpretationOutputNotArray),
    }
}

/// Decodes the rule table.
pub fn decode_rules(value: &Value) -> (result: Result<Table<Vec<String>>, LoadError>)
    ensures
        match rules_of(*value) {
            Ok(rules) => result matches Ok(table) && table.wf() && rule_views(table@) == rules,
            Err(e) => result matches Err(got) && got == e,
        },
{
    match value {
        Value::Object(members) => {
            let mut table: Table<Vec<String>> = Table::new();
            let mut failure: Option<LoadError> = None;
            let mut i: usize = 0;
            assert(rule_views(table@) =~= Map::<Symbol, Seq<Symbol>>::empty());
            while i < members.entries.len()
                invariant
                    i <= members.entries.len(),
                    table.wf(),
                    match rules_of_members(members.entries@.take(i as int)) {
                        Ok(rules) => failure is None && rule_views(table@) == rules,
                        Err(e) => failure == Some(e),
                    },
                decreases members.entries.len() - i,
            {
                proof {
                    let next = members.entries@.take(i as int + 1);
                    assert(next.drop_last() =~= members.entries@.take(i as int));
                    assert(next.last() == members.entries@[i as int]);
                }
                if failure.is_none() {
                    match decode_symbols(
                        &members.entries[i].value,
                        LoadError::RuleOutputNotArray,
                        LoadError::RuleOutputElementNotString,
                    ) {
                        Ok(output) => {
                            let ghost before = table@;
                            let key = members.entries[i].key.clone();
                            table.insert(key, output);
                            assert(rule_views(table@) =~= rule_views(before).insert(
                                key@,
                                views(output@),
                            ));
                        },
                        Err(e) => {
                            failure = Some(e);
                        },
                    }
                }
                i += 1;
            }
            assert(members.entries@.take(i as int) =~= members.entries@);
            match failure {
                None => Ok(table),
                Some(e) => Err(e),
            }
        },
        _ => Err(LoadError::RulesNotObject),
    }
}

/// Decodes the interpretation table.
pub fn decode_interp(value: &Value) -> (result: Result<Table<Vec<Instruction>>, LoadError>)
    ensures
        match interp_of(*value) {
            Ok(interp) => result matches Ok(table) && table.wf() && drawn_views(table@) == interp,
            Err(e) => result matches Err(got) && got == e,
        },
{
    match value {
        Value::Object(members) => {
            let mut table: Table<Vec<Instruction>> = Table::new();
            let mut failure: Option<LoadError> = None;
            let mut i: usize = 0;
            assert(drawn_views(table@) =~= Map::<Symbol, Seq<Instruction>>::empty());
            while i < members.entries.len()
                invariant
                    i <= members.entries.len(),
                    table.wf(),
                    match interp_of_members(members.entries@.take(i as int)) {
                        Ok(interp) => failure is None && drawn_views(table@) == interp,
                        Err(e) => failure == Some(e),
                    },
                decreases members.entries.len() - i,
            {
                proof {
                    let next = members.entries@.take(i as int + 1);
                    assert(next.drop_last() =~= members.entries@.take(i as int));
                    assert(next.last() == members.entries@[i as int]);
                }
                if failure.is_none() {
                    match decode_drawing(&members.entries[i].value) {
                        Ok(drawn) => {
                            let ghost before = table@;
                            let key = members.entries[i].key.clone();
                            table.insert(key, drawn);
                            assert(drawn_views(table@) =~= drawn_views(before).insert(
                                key@,
                                drawn@,
                            ));
                        },
                        Err(e) => {
                            failure = Some(e);
                        },
                    }
                }
                i += 1;
            }
            assert(members.entries@.take(i as int) =~= members.entries@);
            match failure {
                None => Ok(table),
                Some(e) => Err(e),
            }
        },
        _ => Err(LoadError::InterpretationNotObject),
    }
}

/// Decodes the alphabet: the symbols of an array of strings, each once.
pub fn decode_alphabet(value: &Value) -> (result: Result<Vec<String>, LoadError>)
    ensures
        match symbols_of(
            *value,
            LoadError::AlphabetNotArray,
            LoadError::AlphabetElementNotString,
        ) {
            Ok(line) => result matches Ok(alphabet) && views(alphabet@).no_duplicates() && views(
                alphabet@,
            ).to_set() == line.to_set(),
            Err(e) => result matches Err(got) && got == e,
        },
{
    match decode_symbols(
        value,
        LoadError::AlphabetNotArray,
        LoadError::AlphabetElementNotString,
    ) {
        Err(e) => Err(e),
        Ok(line) => {
            let mut alphabet: Vec<String> = Vec::new();
            let mut i: usize = 0;
            assert(views(alphabet@).to_set() =~= views(line@).take(0).to_set());
            while i < line.len()
                invariant
                    i <= line.len(),
                    views(alphabet@).no_duplicates(),
                    views(alphabet@).to_set() == views(line@).take(i as int).to_set(),
                decreases line.len() - i,
            {
                insert_symbol(&mut alphabet, line[i].clone());
                proof {
                    let front = views(line@).take(i as int);
                    assert(views(line@).take(i as int + 1) =~= front.push(line@[i as int]@));
                    front.lemma_push_to_set_commute(line@[i as int]@);
                }
                i += 1;
            }
            assert(views(line@).take(i as int) =~= views(line@));
            Ok(alphabet)
        },
    }
}

impl LSystem {
    /// Builds the system that a document describes. The document is an
    /// object with the generation count, the alphabet, the starting
    /// sequence, the rules and the interpretation; whether the symbols in
    /// use belong to the alphabet is not asked here.
    pub fn from_document(doc: &Value) -> (result: Result<LSystem, LoadError>)
        ensures
            match grammar_of(*doc) {
                Ok(grammar) => result matches Ok(system) && system.wf() && system@ == grammar,
                Err(e) => result matches Err(got) && got == e,
            },
    {
        let null = Value::Null;
        let iters = match decode_iterations(lookup(doc, &String::from_str("iters"), &null)) {
            Ok(n) => n,
            Err(e) => {
                return Err(e);
            },
        };
        let alphabet = match decode_alphabet(lookup(doc, &String::from_str("alphabet"), &null)) {
            Ok(symbols) => symbols,
            Err(e) => {
                return Err(e);
            },
        };
        let initiator = match decode_symbols(
            lookup(doc, &start_key_name(), &null),
            LoadError::StartNotArray,
            LoadError::StartElementNotString,
        ) {
            Ok(symbols) => symbols,
            Err(e) => {
                return Err(e);
            },
        };
        let rules = match decode_rules(lookup(doc, &String::from_str("rules"), &null)) {
            Ok(table) => table,
            Err(e) => {
                return Err(e);
            },
        };
        let interp = match decode_interp(lookup(doc, &String::from_str("interpretation"), &null)) {
            Ok(table) => table,
            Err(e) => {
                return Err(e);
            },
        };
        Ok(LSystem { iters, alphabet, initiator, rules, interp })
    }

    /// Builds the system that the text of a grammar file describes: the
    /// text is parsed as JSON, and the document that comes of it is loaded.
    /// A text with more than `MAX_DIGIT_RUN` decimal digits in a row is
    /// refused before it is parsed.
    pub fn from_file(text: &str) -> (result: Result<LSystem, LoadError>)
        ensures
            if !digit_runs_fit(text.spec_bytes()) {
                result matches Err(got) && got == LoadError::DigitRunTooLong
            } else {
                match parsed(text@) {
                    None => result matches Err(got) && got == LoadError::NotJson,
                    Some(json) => match grammar_of(node_of(json)) {
                        Ok(grammar) => result matches Ok(system) && system.wf() && system@
                            == grammar,
                        Err(e) => result matches Err(got) && got == e,
                    },
                }
            },
    {
        if !digit_runs_fit_in(text) {
            return Err(LoadError::DigitRunTooLong);
        }
        match parse_text(text) {
            None => Err(LoadError::NotJson),
            Some(json) => {
                let doc = node(&json);
                LSystem::from_document(&doc)
            },
        }
    }
}

} // verus!
