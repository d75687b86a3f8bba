//! Validation: every symbol that a system refers to must belong to its
//! alphabet. All the symbols that do not are reported together.

use vstd::prelude::*;
use vstd::string::StringExecFns;
use crate::document::{start_key, start_key_name};
use crate::instruction::Instruction;
use crate::symbols::{contains_symbol, views, Symbol};
use crate::system::{Grammar, LSystem};
use crate::table::{lemma_entry_in_map, lemma_map_key_has_entry, Entry};

verus! {

/// Where in a system a symbol stands.
#[derive(Clone, Copy, Debug, PartialEq, Eq)]
pub enum Place {
    /// In the starting sequence.
    Start,
    /// On the left-hand side of a production rule.
    RuleInput,
    /// On the right-hand side of a production rule.
    RuleOutput,
    /// As a key of the interpretation table.
    Interpretation,
}

/// A symbol that is used but is not in the alphabet.
#[derive(Clone, Debug, PartialEq, Eq)]
pub struct Violation {
    pub place: Place,
    pub symbol: String,
}

impl View for Violation {
    type V = (Place, Symbol);

    open spec fn view(&self) -> (Place, Symbol) {
        (self.place, self.symbol@)
    }
}

impl Place {
    /// The place in words, as it ends a violation's message.
    pub open spec fn text(self) -> Seq<char> {
        match self {
            Place::Start => " in "@ + start_key(),
            Place::RuleInput => " as input in production rule"@,
            Place::RuleOutput => " as output in production rule"@,
            Place::Interpretation => " as interpretation"@,
        }
    }
}

impl Violation {
    /// The violation in words: the symbol and where it stands.
    pub fn message(&self) -> (message: String)
        ensures
            message@ == "Unknown symbol "@ + self.symbol@ + self.place.text(),
    {
        let head = String::from_str("Unknown symbol ").concat(self.symbol.as_str());
        match self.place {
            Place::Start => {
                let name = start_key_name();
                let message = head.concat(" in ").concat(name.as_str());
                assert(message@ =~= "Unknown symbol "@ + self.symbol@ + (" in "@ + start_key()));
                message
            },
            Place::RuleInput => head.concat(" as input in production rule"),
            Place::RuleOutput => head.concat(" as output in production rule"),
            Place::Interpretation => head.concat(" as interpretation"),
        }
    }
}

/// The violations of a report, each as a place and a symbol.
pub open spec fn violation_views(report: Seq<Violation>) -> Seq<(Place, Symbol)> {
    Seq::new(report.len(), |i: int| report[i]@)
}

/// What is reported of one symbol: nothing where the alphabet holds it.
pub open spec fn unknown_symbol(alphabet: Set<Symbol>, place: Place, symbol: Symbol) -> Seq<
    (Place, Symbol),
> {
    if alphabet.contains(symbol) {
        Seq::empty()
    } else {
        seq![(place, symbol)]
    }
}

/// What is reported of a sequence of symbols: those that the alphabet does
/// not hold, in order.
pub open spec fn unknown(alphabet: Set<Symbol>, place: Place, line: Seq<Symbol>) -> Seq<
    (Place, Symbol),
>
    decreases line.len(),
{
    if line.len() == 0 {
        Seq::empty()
    } else {
        unknown(alphabet, place, line.drop_last()) + unknown_symbol(alphabet, place, line.last())
    }
}

/// What is reported of the production rules: for each rule in order, its
/// input and then its outputs.
pub open spec fn unknown_in_rules(alphabet: Set<Symbol>, rules: Seq<Entry<Vec<String>>>) -> Seq<
    (Place, Symbol),
>
    decreases rules.len(),
{
    if rules.len() == 0 {
        Seq::empty()
    } else {
        unknown_in_rules(alphabet, rules.drop_last()) + unknown_symbol(
            alphabet,
            Place::RuleInput,
            rules.last().key@,
        ) + unknown(alphabet, Place::RuleOutput, views(rules.last().value@))
    }
}

/// What is reported of the interpretation table: its keys, in order.
pub open spec fn unknown_in_interp(
    alphabet: Set<Symbol>,
    interp: Seq<Entry<Vec<Instruction>>>,
) -> Seq<(Place, Symbol)>
    decreases interp.len(),
{
    if interp.len() == 0 {
        Seq::empty()
    } else {
        unknown_in_interp(alphabet, interp.drop_last()) + unknown_symbol(
            alphabet,
            Place::Interpretation,
            interp.last().key@,
        )
    }
}

/// Nothing is reported of a sequence exactly when the alphabet holds each of
/// its symbols.
pub proof fn lemma_unknown_empty(alphabet: Set<Symbol>, place: Place, line: Seq<Symbol>)
    ensures
        unknown(alphabet, place, line).len() == 0 <==> forall|i: int|
            0 <= i < line.len() ==> alphabet.contains(#[trigger] line[i]),
    decreases line.len(),
{
    if line.len() > 0 {
        let front = line.drop_last();
        lemma_unknown_empty(alphabet, place, front);
        if unknown(alphabet, place, line).len() == 0 {
            assert forall|i: int| 0 <= i < line.len() implies alphabet.contains(
                #[trigger] line[i],
            ) by {
                if i < line.len() - 1 {
                    assert(front[i] == line[i]);
                }
            }
        }
        if forall|i: int| 0 <= i < line.len() ==> alphabet.contains(#[trigger] line[i]) {
            assert forall|i: int| 0 <= i < front.len() implies alphabet.contains(
                #[trigger] front[i],
            ) by {
                assert(front[i] == line[i]);
            }
            assert(alphabet.contains(line[line.len() - 1]));
        }
    }
}

/// Nothing is reported of the rules exactly when the alphabet holds every
/// input and every output.
pub proof fn lemma_unknown_in_rules_empty(alphabet: Set<Symbol>, rules: Seq<Entry<Vec<String>>>)
    ensures
        unknown_in_rules(alphabet, rules).len() == 0 <==> forall|i: int|
            0 <= i < rules.len() ==> rule_closed(alphabet, #[trigger] rules[i]),
    decreases rules.len(),
{
    if rules.len() > 0 {
        let front = rules.drop_last();
        lemma_unknown_in_rules_empty(alphabet, front);
        lemma_unknown_empty(alphabet, Place::RuleOutput, views(rules.last().value@));
        if unknown_in_rules(alphabet, rules).len() == 0 {
            assert forall|i: int| 0 <= i < rules.len() implies rule_closed(
                alphabet,
                #[trigger] rules[i],
            ) by {
                if i < rules.len() - 1 {
                    assert(front[i] == rules[i]);
                }
            }
        }
        if forall|i: int| 0 <= i < rules.len() ==> rule_closed(alphabet, #[trigger] rules[i]) {
            assert forall|i: int| 0 <= i < front.len() implies rule_closed(
                alphabet,
                #[trigger] front[i],
            ) by {
                assert(front[i] == rules[i]);
            }
            assert(rule_closed(alphabet, rules[rules.len() - 1]));
        }
    }
}

/// Nothing is reported of the interpretation table exactly when the
/// alphabet holds every key.
pub proof fn lemma_unknown_in_interp_empty(
    alphabet: Set<Symbol>,
    interp: Seq<Entry<Vec<Instruction>>>,
)
    ensures
        unknown_in_interp(alphabet, interp).len() == 0 <==> forall|i: int|
            0 <= i < interp.len() ==> alphabet.contains((#[trigger] interp[i]).key@),
    decreases interp.len(),
{
    if interp.len() > 0 {
        let front = interp.drop_last();
        lemma_unknown_in_interp_empty(alphabet, front);
        if unknown_in_interp(alphabet, interp).len() == 0 {
            assert forall|i: int| 0 <= i < interp.len() implies alphabet.contains(
                (#[trigger] interp[i]).key@,
            ) by {
                if i < interp.len() - 1 {
                    assert(front[i] == interp[i]);
                }
            }
        }
        if forall|i: int| 0 <= i < interp.len() ==> alphabet.contains((#[trigger] interp[i]).key@) {
            assert forall|i: int| 0 <= i < front.len() implies alphabet.contains(
                (#[trigger] front[i]).key@,
            ) by {
                assert(front[i] == interp[i]);
            }
            assert(alphabet.contains(interp[interp.len() - 1].key@));
        }
    }
}

/// Every symbol of a sequence that the alphabet does not hold is reported.
pub proof fn lemma_unknown_reports_each(
    alphabet: Set<Symbol>,
    place: Place,
    line: Seq<Symbol>,
    i: int,
)
    requires
        0 <= i < line.len(),
        !alphabet.contains(line[i]),
    ensures
        unknown(alphabet, place, line).contains((place, line[i])),
    decreases line.len(),
{
    let front = unknown(alphabet, place, line.drop_last());
    let all = unknown(alphabet, place, line);
    if i == line.len() - 1 {
        assert(all[front.len() as int] == (place, line[i]));
    } else {
        lemma_unknown_reports_each(alphabet, place, line.drop_last(), i);
        let k = choose|k: int| 0 <= k < front.len() && front[k] == (place, line[i]);
        assert(all[k] == (place, line[i]));
    }
}

/// Only symbols that the alphabet does not hold are reported of a
/// sequence, each at the place asked for.
pub proof fn lemma_unknown_reports_only_unknown(
    alphabet: Set<Symbol>,
    place: Place,
    line: Seq<Symbol>,
    k: int,
)
    requires
        0 <= k < unknown(alphabet, place, line).len(),
    ensures
        unknown(alphabet, place, line)[k].0 == place,
        !alphabet.contains(unknown(alphabet, place, line)[k].1),
        line.contains(unknown(alphabet, place, line)[k].1),
    decreases line.len(),
{
    if line.len() > 0 {
        let front = unknown(alphabet, place, line.drop_last());
        if k < front.len() {
            lemma_unknown_reports_only_unknown(alphabet, place, line.drop_last(), k);
            let i = choose|i: int|
                0 <= i < line.drop_last().len() && line.drop_last()[i] == front[k].1;
            assert(line[i] == front[k].1);
        } else {
            assert(line[line.len() - 1] == line.last());
        }
    }
}

/// Only symbols that the alphabet does not hold are reported of the rules.
pub proof fn lemma_rules_report_only_unknown(
    alphabet: Set<Symbol>,
    rules: Seq<Entry<Vec<String>>>,
    k: int,
)
    requires
        0 <= k < unknown_in_rules(alphabet, rules).len(),
    ensures
        !alphabet.contains(unknown_in_rules(alphabet, rules)[k].1),
    decreases rules.len(),
{
    if rules.len() > 0 {
        let front = unknown_in_rules(alphabet, rules.drop_last());
        let input = unknown_symbol(alphabet, Place::RuleInput, rules.last().key@);
        let outputs = unknown(alphabet, Place::RuleOutput, views(rules.last().value@));
        if k < front.len() {
            lemma_rules_report_only_unknown(alphabet, rules.drop_last(), k);
        } else if k < front.len() + input.len() {
        } else {
            lemma_unknown_reports_only_unknown(
                alphabet,
                Place::RuleOutput,
                views(rules.last().value@),
                k - front.len() - input.len(),
            );
        }
    }
}

/// Only keys that the alphabet does not hold are reported of the
/// interpretation table.
pub proof fn lemma_interp_reports_only_unknown(
    alphabet: Set<Symbol>,
    interp: Seq<Entry<Vec<Instruction>>>,
    k: int,
)
    requires
        0 <= k < unknown_in_interp(alphabet, interp).len(),
    ensures
        !alphabet.contains(unknown_in_interp(alphabet, interp)[k].1),
    decreases interp.len(),
{
    if interp.len() > 0 {
        let front = unknown_in_interp(alphabet, interp.drop_last());
        if k < front.len() {
            lemma_interp_reports_only_unknown(alphabet, interp.drop_last(), k);
        }
    }
}

/// Every rule input that the alphabet does not hold is reported.
pub proof fn lemma_rules_report_each_input(
    alphabet: Set<Symbol>,
    rules: Seq<Entry<Vec<String>>>,
    i: int,
)
    requires
        0 <= i < rules.len(),
        !alphabet.contains(rules[i].key@),
    ensures
        unknown_in_rules(alphabet, rules).contains((Place::RuleInput, rules[i].key@)),
    decreases rules.len(),
{
    let front = unknown_in_rules(alphabet, rules.drop_last());
    let all = unknown_in_rules(alphabet, rules);
    if i == rules.len() - 1 {
        assert(all[front.len() as int] == (Place::RuleInput, rules[i].key@));
    } else {
        lemma_rules_report_each_input(alphabet, rules.drop_last(), i);
        let k = choose|k: int| 0 <= k < front.len() && front[k] == (Place::RuleInput, rules[i].key@);
        assert(all[k] == (Place::RuleInput, rules[i].key@));
    }
}

/// Every rule output that the alphabet does not hold is reported.
pub proof fn lemma_rules_report_each_output(
    alphabet: Set<Symbol>,
    rules: Seq<Entry<Vec<String>>>,
    i: int,
    j: int,
)
    requires
        0 <= i < rules.len(),
        0 <= j < rules[i].value@.len(),
        !alphabet.contains(views(rules[i].value@)[j]),
    ensures
        unknown_in_rules(alphabet, rules).contains(
            (Place::RuleOutput, views(rules[i].value@)[j]),
        ),
    decreases rules.len(),
{
    let front = unknown_in_rules(alphabet, rules.drop_last());
    let all = unknown_in_rules(alphabet, rules);
    let wanted = (Place::RuleOutput, views(rules[i].value@)[j]);
    if i == rules.len() - 1 {
        let outputs = unknown(alphabet, Place::RuleOutput, views(rules[i].value@));
        lemma_unknown_reports_each(alphabet, Place::RuleOutput, views(rules[i].value@), j);
        let k = choose|k: int| 0 <= k < outputs.len() && outputs[k] == wanted;
        assert(all[all.len() - outputs.len() + k] == wanted);
    } else {
        lemma_rules_report_each_output(alphabet, rules.drop_last(), i, j);
        let k = choose|k: int| 0 <= k < front.len() && front[k] == wanted;
        assert(all[k] == wanted);
    }
}

/// Every interpretation key that the alphabet does not hold is reported.
pub proof fn lemma_interp_reports_each_key(
    alphabet: Set<Symbol>,
    interp: Seq<Entry<Vec<Instruction>>>,
    i: int,
)
    requires
        0 <= i < interp.len(),
        !alphabet.contains(interp[i].key@),
    ensures
        unknown_in_interp(alphabet, interp).contains((Place::Interpretation, interp[i].key@)),
    decreases interp.len(),
{
    let front = unknown_in_interp(alphabet, interp.drop_last());
    let all = unknown_in_interp(alphabet, interp);
    if i == interp.len() - 1 {
        assert(all[front.len() as int] == (Place::Interpretation, interp[i].key@));
    } else {
        lemma_interp_reports_each_key(alphabet, interp.drop_last(), i);
        let k = choose|k: int|
            0 <= k < front.len() && front[k] == (Place::Interpretation, interp[i].key@);
        assert(all[k] == (Place::Interpretation, interp[i].key@));
    }
}

/// A grammar is closed when the alphabet holds every symbol of the starting
/// sequence, both sides of every rule and every key of the interpretation
/// table.
pub open spec fn grammar_closed(g: Grammar) -> bool {
    &&& forall|i: int| 0 <= i < g.start.len() ==> g.alphabet.contains(#[trigger] g.start[i])
    &&& forall|k: Symbol| #[trigger] g.rules.contains_key(k) ==> g.alphabet.contains(k)
    &&& forall|k: Symbol, j: int|
        g.rules.contains_key(k) && 0 <= j < g.rules[k].len() ==> g.alphabet.contains(
            #[trigger] g.rules[k][j],
        )
    &&& forall|k: Symbol| #[trigger] g.interp.contains_key(k) ==> g.alphabet.contains(k)
}

/// The alphabet holds the rule's input and each of its outputs.
pub open spec fn rule_closed(alphabet: Set<Symbol>, rule: Entry<Vec<String>>) -> bool {
    &&& alphabet.contains(rule.key@)
    &&& forall|j: int|
        0 <= j < rule.value@.len() ==> alphabet.contains(#[trigger] views(rule.value@)[j])
}

impl LSystem {
    /// Every symbol of the starting sequence, of either side of a rule and
    /// every key of the interpretation table is in the alphabet.
    pub open spec fn closed(&self) -> bool {
        &&& forall|i: int|
            0 <= i < self.start_line().len() ==> self.alphabet_set().contains(
                #[trigger] self.start_line()[i],
            )
        &&& forall|i: int|
            0 <= i < self.rules.entries@.len() ==> rule_closed(
                self.alphabet_set(),
                #[trigger] self.rules.entries@[i],
            )
        &&& forall|i: int|
            0 <= i < self.interp.entries@.len() ==> self.alphabet_set().contains(
                (#[trigger] self.interp.entries@[i]).key@,
            )
    }

    /// Every violation of the system: those of the starting sequence, then
    /// those of the rules, then those of the interpretation table.
    pub open spec fn violations(&self) -> Seq<(Place, Symbol)> {
        unknown(self.alphabet_set(), Place::Start, self.start_line()) + unknown_in_rules(
            self.alphabet_set(),
            self.rules.entries@,
        ) + unknown_in_interp(self.alphabet_set(), self.interp.entries@)
    }

    /// The system has no violation exactly when it is closed.
    pub proof fn lemma_no_violation_iff_closed(&self)
        ensures
            self.violations().len() == 0 <==> self.closed(),
    {
        lemma_unknown_empty(self.alphabet_set(), Place::Start, self.start_line());
        lemma_unknown_in_rules_empty(self.alphabet_set(), self.rules.entries@);
        lemma_unknown_in_interp_empty(self.alphabet_set(), self.interp.entries@);
    }

    /// For a system that holds nothing twice, to be closed entry by entry
    /// is for its grammar to be closed.
    pub proof fn lemma_closed_is_grammar_closed(&self)
        requires
            self.wf(),
        ensures
            self.closed() <==> grammar_closed(self@),
    {
        let alphabet = self.alphabet_set();
        let rules = self.rules.entries@;
        let interp = self.interp.entries@;
        let g = self@;
        if self.closed() {
            assert forall|k: Symbol| #[trigger] g.rules.contains_key(k) implies alphabet.contains(
                k,
            ) && forall|j: int|
                0 <= j < g.rules[k].len() ==> alphabet.contains(#[trigger] g.rules[k][j]) by {
                lemma_map_key_has_entry(rules, k);
                let i = choose|i: int| 0 <= i < rules.len() && (#[trigger] rules[i]).key@ == k;
                lemma_entry_in_map(rules, i);
                assert(rule_closed(alphabet, rules[i]));
                assert(g.rules[k] == views(rules[i].value@));
            }
            assert forall|k: Symbol| #[trigger] g.interp.contains_key(k) implies alphabet.contains(
                k,
            ) by {
                lemma_map_key_has_entry(interp, k);
                let i = choose|i: int| 0 <= i < interp.len() && (#[trigger] interp[i]).key@ == k;
                assert(alphabet.contains(interp[i].key@));
            }
            assert(grammar_closed(g));
        }
        if grammar_closed(g) {
            assert forall|i: int| 0 <= i < rules.len() implies rule_closed(
                alphabet,
                #[trigger] rules[i],
            ) by {
                lemma_entry_in_map(rules, i);
                let k = rules[i].key@;
                assert(g.rules.contains_key(k));
                assert(g.rules[k] == views(rules[i].value@));
                assert forall|j: int| 0 <= j < rules[i].value@.len() implies alphabet.contains(
                    #[trigger] views(rules[i].value@)[j],
                ) by {
                    assert(alphabet.contains(g.rules[k][j]));
                }
            }
            assert forall|i: int| 0 <= i < interp.len() implies alphabet.contains(
                (#[trigger] interp[i]).key@,
            ) by {
                lemma_entry_in_map(interp, i);
                assert(g.interp.contains_key(interp[i].key@));
            }
            assert forall|i: int| 0 <= i < self.start_line().len() implies alphabet.contains(
                #[trigger] self.start_line()[i],
            ) by {
                assert(alphabet.contains(g.start[i]));
            }
            assert(self.closed());
        }
    }

    /// A report holds no symbol of the alphabet.
    pub proof fn lemma_reports_only_unknown(&self, k: int)
        requires
            0 <= k < self.violations().len(),
        ensures
            !self.alphabet_set().contains(self.violations()[k].1),
    {
        let first = unknown(self.alphabet_set(), Place::Start, self.start_line());
        let second = unknown_in_rules(self.alphabet_set(), self.rules.entries@);
        if k < first.len() {
            lemma_unknown_reports_only_unknown(
                self.alphabet_set(),
                Place::Start,
                self.start_line(),
                k,
            );
        } else if k < first.len() + second.len() {
            lemma_rules_report_only_unknown(
                self.alphabet_set(),
                self.rules.entries@,
                k - first.len(),
            );
        } else {
            lemma_interp_reports_only_unknown(
                self.alphabet_set(),
                self.interp.entries@,
                k - first.len() - second.len(),
            );
        }
    }

    /// Errors are aggregated: one report holds every symbol of the
    /// starting sequence that the alphabet does not hold.
    pub proof fn lemma_reports_each_start_symbol(&self, i: int)
        requires
            0 <= i < self.start_line().len(),
            !self.alphabet_set().contains(self.start_line()[i]),
        ensures
            self.violations().contains((Place::Start, self.start_line()[i])),
    {
        lemma_unknown_reports_each(self.alphabet_set(), Place::Start, self.start_line(), i);
        let part = unknown(self.alphabet_set(), Place::Start, self.start_line());
        let k = choose|k: int| 0 <= k < part.len() && part[k] == (Place::Start, self.start_line()[i]);
        assert(self.violations()[k] == part[k]);
    }

    /// Errors are aggregated: the same report holds every input of a rule
    /// that the alphabet does not hold.
    pub proof fn lemma_reports_each_rule_input(&self, i: int)
        requires
            0 <= i < self.rules.entries@.len(),
            !self.alphabet_set().contains(self.rules.entries@[i].key@),
        ensures
            self.violations().contains((Place::RuleInput, self.rules.entries@[i].key@)),
    {
        lemma_rules_report_each_input(self.alphabet_set(), self.rules.entries@, i);
        let first = unknown(self.alphabet_set(), Place::Start, self.start_line());
        let part = unknown_in_rules(self.alphabet_set(), self.rules.entries@);
        let wanted = (Place::RuleInput, self.rules.entries@[i].key@);
        let k = choose|k: int| 0 <= k < part.len() && part[k] == wanted;
        assert(self.violations()[first.len() + k] == part[k]);
    }

    /// Errors are aggregated: the same report holds every output of a rule
    /// that the alphabet does not hold.
    pub proof fn lemma_reports_each_rule_output(&self, i: int, j: int)
        requires
            0 <= i < self.rules.entries@.len(),
            0 <= j < self.rules.entries@[i].value@.len(),
            !self.alphabet_set().contains(views(self.rules.entries@[i].value@)[j]),
        ensures
            self.violations().contains(
                (Place::RuleOutput, views(self.rules.entries@[i].value@)[j]),
            ),
    {
        lemma_rules_report_each_output(self.alphabet_set(), self.rules.entries@, i, j);
        let first = unknown(self.alphabet_set(), Place::Start, self.start_line());
        let part = unknown_in_rules(self.alphabet_set(), self.rules.entries@);
        let wanted = (Place::RuleOutput, views(self.rules.entries@[i].value@)[j]);
        let k = choose|k: int| 0 <= k < part.len() && part[k] == wanted;
        assert(self.violations()[first.len() + k] == part[k]);
    }

    /// Errors are aggregated: the same report holds every key of the
    /// interpretation table that the alphabet does not hold.
    pub proof fn lemma_reports_each_interp_key(&self, i: int)
        requires
            0 <= i < self.interp.entries@.len(),
            !self.alphabet_set().contains(self.interp.entries@[i].key@),
        ensures
            self.violations().contains((Place::Interpretation, self.interp.entries@[i].key@)),
    {
        lemma_interp_reports_each_key(self.alphabet_set(), self.interp.entries@, i);
        let first = unknown(self.alphabet_set(), Place::Start, self.start_line());
        let second = unknown_in_rules(self.alphabet_set(), self.rules.entries@);
        let part = unknown_in_interp(self.alphabet_set(), self.interp.entries@);
        let wanted = (Place::Interpretation, self.interp.entries@[i].key@);
        let k = choose|k: int| 0 <= k < part.len() && part[k] == wanted;
        assert(self.violations()[first.len() + second.len() + k] == part[k]);
    }

    /// Adds `symbol` to the report unless the alphabet holds it.
    pub fn report_symbol(&self, place: Place, symbol: &String, report: &mut Vec<Violation>)
        ensures
            violation_views(final(report)@) == violation_views(old(report)@) + unknown_symbol(
                self.alphabet_set(),
                place,
                symbol@,
            ),
    {
        if !contains_symbol(&self.alphabet, symbol) {
            report.push(Violation { place, symbol: symbol.clone() });
            assert(violation_views(report@) =~= violation_views(old(report)@) + seq![
                (place, symbol@),
            ]);
        } else {
            assert(violation_views(report@) =~= violation_views(old(report)@) + Seq::<
                (Place, Symbol),
            >::empty());
        }
    }

    /// Adds to the report the symbols of `line` that the alphabet does not
    /// hold, in order.
    pub fn report_line(&self, place: Place, line: &Vec<String>, report: &mut Vec<Violation>)
        ensures
            violation_views(final(report)@) == violation_views(old(report)@) + unknown(
                self.alphabet_set(),
                place,
                views(line@),
            ),
    {
        let mut i: usize = 0;
        assert(violation_views(report@) =~= violation_views(old(report)@) + Seq::<
            (Place, Symbol),
        >::empty());
        while i < line.len()
            invariant
                i <= line.len(),
                violation_views(report@) == violation_views(old(report)@) + unknown(
                    self.alphabet_set(),
                    place,
                    views(line@).take(i as int),
                ),
            decreases line.len() - i,
        {
            proof {
                let next = views(line@).take(i as int + 1);
                assert(next.drop_last() =~= views(line@).take(i as int));
                assert(next.last() == line@[i as int]@);
            }
            let ghost before = violation_views(report@);
            self.report_symbol(place, &line[i], report);
            assert(violation_views(report@) =~= violation_views(old(report)@) + unknown(
                self.alphabet_set(),
                place,
                views(line@).take(i as int + 1),
            ));
            i += 1;
        }
        assert(views(line@).take(i as int) =~= views(line@));
    }

    /// Checks that every symbol in use is in the alphabet. It succeeds
    /// exactly when the system is closed; otherwise it reports every
    /// violation, not only the first.
    pub fn validate(&self) -> (result: Result<(), Vec<Violation>>)
        ensures
            result is Ok <==> self.closed(),
            self.wf() ==> (result is Ok <==> grammar_closed(self@)),
            result matches Err(report) ==> report@.len() > 0 && violation_views(report@)
                == self.violations(),
    {
        let mut report: Vec<Violation> = Vec::new();
        assert(violation_views(report@) =~= Seq::<(Place, Symbol)>::empty());
        self.report_line(Place::Start, &self.initiator, &mut report);
        let ghost first = unknown(self.alphabet_set(), Place::Start, self.start_line());
        assert(violation_views(report@) =~= first);
        let mut i: usize = 0;
        assert(first + Seq::<(Place, Symbol)>::empty() =~= first);
        while i < self.rules.entries.len()
            invariant
                i <= self.rules.entries.len(),
                violation_views(report@) == first + unknown_in_rules(
                    self.alphabet_set(),
                    self.rules.entries@.take(i as int),
                ),
            decreases self.rules.entries.len() - i,
        {
            proof {
                let next = self.rules.entries@.take(i as int + 1);
                assert(next.drop_last() =~= self.rules.entries@.take(i as int));
                assert(next.last() == self.rules.entries@[i as int]);
            }
            self.report_symbol(Place::RuleInput, &self.rules.entries[i].key, &mut report);
            self.report_line(Place::RuleOutput, &self.rules.entries[i].value, &mut report);
            assert(violation_views(report@) =~= first + unknown_in_rules(
                self.alphabet_set(),
                self.rules.entries@.take(i as int + 1),
            ));
            i += 1;
        }
        assert(self.rules.entries@.take(i as int) =~= self.rules.entries@);
        let ghost second = first + unknown_in_rules(self.alphabet_set(), self.rules.entries@);
        let mut k: usize = 0;
        assert(second + Seq::<(Place, Symbol)>::empty() =~= second);
        while k < self.interp.entries.len()
            invariant
                k <= self.interp.entries.len(),
                violation_views(report@) == second + unknown_in_interp(
                    self.alphabet_set(),
                    self.interp.entries@.take(k as int),
                ),
            decreases self.interp.entries.len() - k,
        {
            proof {
                let next = self.interp.entries@.take(k as int + 1);
                assert(next.drop_last() =~= self.interp.entries@.take(k as int));
                assert(next.last() == self.interp.entries@[k as int]);
            }
            self.report_symbol(Place::Interpretation, &self.interp.entries[k].key, &mut report);
            assert(violation_views(report@) =~= second + unknown_in_interp(
                self.alphabet_set(),
                self.interp.entries@.take(k as int + 1),
            ));
            k += 1;
        }
        assert(self.interp.entries@.take(k as int) =~= self.interp.entries@);
        proof {
            self.lemma_no_violation_iff_closed();
            if self.wf() {
                self.lemma_closed_is_grammar_closed();
            }
        }
        if report.len() == 0 {
            Ok(())
        } else {
            Err(report)
        }
    }
}

} // verus!
