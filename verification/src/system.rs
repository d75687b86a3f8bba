//! The L-system itself, the rewriting of a symbol sequence and its
//! resolution into drawing instructions.

use vstd::prelude::*;
use crate::instruction::Instruction;
use crate::symbols::{append_symbols, copy_symbols, lemma_views_push, views, Symbol};
use crate::table::Table;

verus! {

/// What one symbol is rewritten to: its rule's output, or itself where it
/// has no rule.
pub open spec fn expand_symbol(rules: Map<Symbol, Seq<Symbol>>, symbol: Symbol) -> Seq<Symbol> {
    if rules.contains_key(symbol) {
        rules[symbol]
    } else {
        seq![symbol]
    }
}

/// One generation: every symbol of `line` rewritten, left to right.
pub open spec fn expand(rules: Map<Symbol, Seq<Symbol>>, line: Seq<Symbol>) -> Seq<Symbol>
    decreases line.len(),
{
    if line.len() == 0 {
        Seq::empty()
    } else {
        expand(rules, line.drop_last()) + expand_symbol(rules, line.last())
    }
}

/// The sequence after `n` generations from `start`.
pub open spec fn generation(rules: Map<Symbol, Seq<Symbol>>, start: Seq<Symbol>, n: nat) -> Seq<
    Symbol,
>
    decreases n,
{
    if n == 0 {
        start
    } else {
        expand(rules, generation(rules, start, (n - 1) as nat))
    }
}

/// What one symbol draws: its interpretation, or nothing where it has none.
pub open spec fn draw_symbol(interp: Map<Symbol, Seq<Instruction>>, symbol: Symbol) -> Seq<
    Instruction,
> {
    if interp.contains_key(symbol) {
        interp[symbol]
    } else {
        Seq::empty()
    }
}

/// What a sequence draws: the instructions of its symbols, in order.
pub open spec fn resolve(interp: Map<Symbol, Seq<Instruction>>, line: Seq<Symbol>) -> Seq<
    Instruction,
>
    decreases line.len(),
{
    if line.len() == 0 {
        Seq::empty()
    } else {
        resolve(interp, line.drop_last()) + draw_symbol(interp, line.last())
    }
}

/// The rule table that a table of symbol lists stands for.
pub open spec fn rule_views(rules: Map<Symbol, Vec<String>>) -> Map<Symbol, Seq<Symbol>> {
    rules.map_values(|output: Vec<String>| views(output@))
}

/// The interpretation table that a table of instruction lists stands for.
pub open spec fn drawn_views(interp: Map<Symbol, Vec<Instruction>>) -> Map<
    Symbol,
    Seq<Instruction>,
> {
    interp.map_values(|drawn: Vec<Instruction>| drawn@)
}

/// A grammar as contracts see it.
pub struct Grammar {
    pub iters: u64,
    pub alphabet: Set<Symbol>,
    pub start: Seq<Symbol>,
    pub rules: Map<Symbol, Seq<Symbol>>,
    pub interp: Map<Symbol, Seq<Instruction>>,
}

impl View for LSystem {
    type V = Grammar;

    open spec fn view(&self) -> Grammar {
        Grammar {
            iters: self.iters,
            alphabet: self.alphabet_set(),
            start: self.start_line(),
            rules: self.rule_map(),
            interp: self.interp_map(),
        }
    }
}

/// An L-system: how many generations to compute, the alphabet, the starting sequence,
/// the production rules and what each symbol draws.
#[derive(Clone, Debug, PartialEq, Eq)]
pub struct LSystem {
    pub iters: u64,
    pub alphabet: Vec<String>,
    pub initiator: Vec<String>,
    pub rules: Table<Vec<String>>,
    pub interp: Table<Vec<Instruction>>,
}

impl LSystem {
    /// The invariant: the alphabet and the two tables hold nothing twice.
    pub open spec fn wf(&self) -> bool {
        &&& views(self.alphabet@).no_duplicates()
        &&& self.rules.wf()
        &&& self.interp.wf()
    }

    /// The alphabet as a set.
    pub open spec fn alphabet_set(&self) -> Set<Symbol> {
        views(self.alphabet@).to_set()
    }

    /// The starting sequence, generation zero.
    pub open spec fn start_line(&self) -> Seq<Symbol> {
        views(self.initiator@)
    }

    /// The rule table as a map from a symbol to its replacement.
    pub open spec fn rule_map(&self) -> Map<Symbol, Seq<Symbol>> {
        rule_views(self.rules@)
    }

    /// The interpretation table as a map from a symbol to what it draws.
    pub open spec fn interp_map(&self) -> Map<Symbol, Seq<Instruction>> {
        drawn_views(self.interp@)
    }

    /// The system with nothing in it.
    pub fn default() -> (system: Self)
        ensures
            system.wf(),
            system.iters == 0,
            system.alphabet@.len() == 0,
            system.initiator@.len() == 0,
            system.rules@ == Map::<Symbol, Vec<String>>::empty(),
            system.interp@ == Map::<Symbol, Vec<Instruction>>::empty(),
    {
        LSystem {
            iters: 0,
            alphabet: Vec::new(),
            initiator: Vec::new(),
            rules: Table::new(),
            interp: Table::new(),
        }
    }

    /// Rewrites `line` by one generation.
    pub fn rewrite(&self, line: &Vec<String>) -> (out: Vec<String>)
        ensures
            views(out@) == expand(self.rule_map(), views(line@)),
    {
        let mut out: Vec<String> = Vec::new();
        let mut i: usize = 0;
        assert(views(out@) =~= Seq::<Symbol>::empty());
        while i < line.len()
            invariant
                i <= line.len(),
                views(out@) == expand(self.rule_map(), views(line@).take(i as int)),
            decreases line.len() - i,
        {
            proof {
                let next = views(line@).take(i as int + 1);
                assert(next.drop_last() =~= views(line@).take(i as int));
                assert(next.last() == line@[i as int]@);
            }
            match self.rules.get(&line[i]) {
                Some(output) => {
                    append_symbols(&mut out, output);
                },
                None => {
                    let ghost before = out@;
                    out.push(line[i].clone());
                    proof {
                        lemma_views_push(before, line@[i as int]);
                        assert(views(before).push(line@[i as int]@) =~= views(before)
                            + seq![line@[i as int]@]);
                    }
                },
            }
            i += 1;
        }
        assert(views(line@).take(i as int) =~= views(line@));
        out
    }

    /// One step of the rewriting: the generation after `current`, or after
    /// the starting sequence where none is given. It always returns a sequence.
    pub fn step(&self, current: Option<Vec<String>>) -> (next: Option<Vec<String>>)
        ensures
            next is Some,
            views(next.unwrap()@) == expand(
                self.rule_map(),
                match current {
                    None => self.start_line(),
                    Some(line) => views(line@),
                },
            ),
    {
        match &current {
            None => Some(self.rewrite(&self.initiator)),
            Some(line) => Some(self.rewrite(line)),
        }
    }

    /// The sequence after `n` generations from the starting sequence.
    pub fn generation(&self, n: u64) -> (line: Vec<String>)
        ensures
            views(line@) == generation(self.rule_map(), self.start_line(), n as nat),
    {
        let mut line: Vec<String> = copy_symbols(&self.initiator);
        let mut i: u64 = 0;
        while i < n
            invariant
                i <= n,
                views(line@) == generation(self.rule_map(), self.start_line(), i as nat),
            decreases n - i,
        {
            line = self.rewrite(&line);
            i += 1;
        }
        line
    }

    /// Every generation from the first to the one that `iters` asks for, in
    /// order: the last of them is the final sequence.
    pub fn generations(&self) -> (lines: Vec<Vec<String>>)
        ensures
            lines@.len() == self.iters,
            forall|k: int|
                0 <= k < lines@.len() ==> views(#[trigger] lines@[k]@) == generation(
                    self.rule_map(),
                    self.start_line(),
                    (k + 1) as nat,
                ),
    {
        let mut lines: Vec<Vec<String>> = Vec::new();
        let mut line: Vec<String> = copy_symbols(&self.initiator);
        let mut i: u64 = 0;
        while i < self.iters
            invariant
                i <= self.iters,
                lines@.len() == i,
                views(line@) == generation(self.rule_map(), self.start_line(), i as nat),
                forall|k: int|
                    0 <= k < lines@.len() ==> views(#[trigger] lines@[k]@) == generation(
                        self.rule_map(),
                        self.start_line(),
                        (k + 1) as nat,
                    ),
            decreases self.iters - i,
        {
            line = self.rewrite(&line);
            lines.push(copy_symbols(&line));
            i += 1;
        }
        lines
    }

    /// The drawing instructions of `line`: for each symbol in order, what
    /// the interpretation table holds for it, and nothing for a symbol that
    /// the table does not hold.
    pub fn instructions(&self, line: &Vec<String>) -> (out: Vec<Instruction>)
        ensures
            out@ == resolve(self.interp_map(), views(line@)),
    {
        let mut out: Vec<Instruction> = Vec::new();
        let mut i: usize = 0;
        while i < line.len()
            invariant
                i <= line.len(),
                out@ == resolve(self.interp_map(), views(line@).take(i as int)),
            decreases line.len() - i,
        {
            proof {
                let next = views(line@).take(i as int + 1);
                assert(next.drop_last() =~= views(line@).take(i as int));
                assert(next.last() == line@[i as int]@);
            }
            match self.interp.get(&line[i]) {
                Some(drawn) => {
                    let ghost before = out@;
                    let mut j: usize = 0;
                    while j < drawn.len()
                        invariant
                            j <= drawn.len(),
                            out@ == before + drawn@.take(j as int),
                        decreases drawn.len() - j,
                    {
                        out.push(drawn[j]);
                        assert(drawn@.take(j as int + 1) =~= drawn@.take(j as int).push(
                            drawn@[j as int],
                        ));
                        j += 1;
                    }
                    assert(drawn@.take(j as int) =~= drawn@);
                },
                None => {
                    assert(out@ + Seq::<Instruction>::empty() =~= out@);
                },
            }
            i += 1;
        }
        assert(views(line@).take(i as int) =~= views(line@));
        out
    }
}

} // verus!
