//! What holds of rewriting and resolution for every rule table, every
//! interpretation table and every sequence.

use vstd::prelude::*;
use crate::instruction::Instruction;
use crate::symbols::Symbol;
use crate::system::{draw_symbol, expand, expand_symbol, generation, resolve};

verus! {

/// Rewriting a single symbol gives that symbol's replacement.
pub proof fn lemma_expand_single(rules: Map<Symbol, Seq<Symbol>>, symbol: Symbol)
    ensures
        expand(rules, seq![symbol]) == expand_symbol(rules, symbol),
{
    let line = seq![symbol];
    assert(line.drop_last() =~= Seq::<Symbol>::empty());
    assert(line.last() == symbol);
    assert(expand(rules, line.drop_last()) =~= Seq::<Symbol>::empty());
    assert(expand(rules, line) =~= expand_symbol(rules, symbol));
}

/// Rewriting is done symbol by symbol: the rewriting of two sequences one
/// after the other is the rewriting of the first followed by that of the
/// second.
pub proof fn lemma_expand_concat(
    rules: Map<Symbol, Seq<Symbol>>,
    first: Seq<Symbol>,
    second: Seq<Symbol>,
)
    ensures
        expand(rules, first + second) == expand(rules, first) + expand(rules, second),
    decreases second.len(),
{
    if second.len() == 0 {
        assert(first + second =~= first);
        assert(expand(rules, first) + expand(rules, second) =~= expand(rules, first));
    } else {
        let whole = first + second;
        assert(whole.drop_last() =~= first + second.drop_last());
        assert(whole.last() == second.last());
        lemma_expand_concat(rules, first, second.drop_last());
        assert(expand(rules, whole) =~= expand(rules, first) + expand(rules, second));
    }
}

/// Order is preserved: in the rewriting of a sequence, the replacement of
/// the symbol at position `k` stands as one block after the rewriting of
/// all that came before it and before the rewriting of all that came after.
pub proof fn lemma_expand_keeps_order(rules: Map<Symbol, Seq<Symbol>>, line: Seq<Symbol>, k: int)
    requires
        0 <= k < line.len(),
    ensures
        expand(rules, line) == expand(rules, line.take(k)) + expand_symbol(rules, line[k])
            + expand(rules, line.skip(k + 1)),
{
    assert(line =~= line.take(k) + seq![line[k]] + line.skip(k + 1));
    lemma_expand_concat(rules, line.take(k) + seq![line[k]], line.skip(k + 1));
    lemma_expand_concat(rules, line.take(k), seq![line[k]]);
    lemma_expand_single(rules, line[k]);
}

/// Order preservation for a sequence of three symbols: the output is the
/// three replacements, in the order of the symbols.
pub proof fn lemma_expand_three(rules: Map<Symbol, Seq<Symbol>>, x: Symbol, y: Symbol, z: Symbol)
    ensures
        expand(rules, seq![x, y, z]) == expand_symbol(rules, x) + expand_symbol(rules, y)
            + expand_symbol(rules, z),
{
    assert(seq![x, y, z] =~= seq![x] + seq![y] + seq![z]);
    lemma_expand_concat(rules, seq![x] + seq![y], seq![z]);
    lemma_expand_concat(rules, seq![x], seq![y]);
    lemma_expand_single(rules, x);
    lemma_expand_single(rules, y);
    lemma_expand_single(rules, z);
}

/// Generations are computed part by part: after any number of steps, two
/// sequences one after the other have become what each becomes alone, one
/// after the other.
pub proof fn lemma_generation_concat(
    rules: Map<Symbol, Seq<Symbol>>,
    first: Seq<Symbol>,
    second: Seq<Symbol>,
    n: nat,
)
    ensures
        generation(rules, first + second, n) == generation(rules, first, n) + generation(
            rules,
            second,
            n,
        ),
    decreases n,
{
    if n > 0 {
        lemma_generation_concat(rules, first, second, (n - 1) as nat);
        lemma_expand_concat(
            rules,
            generation(rules, first, (n - 1) as nat),
            generation(rules, second, (n - 1) as nat),
        );
    }
}

/// A symbol without a rule is a fixed point: alone, it is still itself
/// after any number of steps.
pub proof fn lemma_unruled_symbol_stays(rules: Map<Symbol, Seq<Symbol>>, symbol: Symbol, n: nat)
    requires
        !rules.contains_key(symbol),
    ensures
        generation(rules, seq![symbol], n) == seq![symbol],
    decreases n,
{
    if n > 0 {
        lemma_unruled_symbol_stays(rules, symbol, (n - 1) as nat);
        lemma_expand_single(rules, symbol);
    }
}

/// A symbol without a rule contributes itself, once, after any number of
/// steps, whatever grows before and after it.
pub proof fn lemma_unruled_symbol_stays_in_place(
    rules: Map<Symbol, Seq<Symbol>>,
    before: Seq<Symbol>,
    symbol: Symbol,
    after: Seq<Symbol>,
    n: nat,
)
    requires
        !rules.contains_key(symbol),
    ensures
        generation(rules, before + seq![symbol] + after, n) == generation(rules, before, n)
            + seq![symbol] + generation(rules, after, n),
{
    lemma_generation_concat(rules, before + seq![symbol], after, n);
    lemma_generation_concat(rules, before, seq![symbol], n);
    lemma_unruled_symbol_stays(rules, symbol, n);
}

/// An empty sequence stays empty.
pub proof fn lemma_expand_empty(rules: Map<Symbol, Seq<Symbol>>)
    ensures
        expand(rules, Seq::<Symbol>::empty()) == Seq::<Symbol>::empty(),
{
}

/// Resolution is done symbol by symbol.
pub proof fn lemma_resolve_concat(
    interp: Map<Symbol, Seq<Instruction>>,
    first: Seq<Symbol>,
    second: Seq<Symbol>,
)
    ensures
        resolve(interp, first + second) == resolve(interp, first) + resolve(interp, second),
    decreases second.len(),
{
    if second.len() == 0 {
        assert(first + second =~= first);
        assert(resolve(interp, first) + resolve(interp, second) =~= resolve(interp, first));
    } else {
        let whole = first + second;
        assert(whole.drop_last() =~= first + second.drop_last());
        assert(whole.last() == second.last());
        lemma_resolve_concat(interp, first, second.drop_last());
        assert(resolve(interp, whole) =~= resolve(interp, first) + resolve(interp, second));
    }
}

/// A symbol without an interpretation draws nothing: the instructions of a
/// sequence that holds it are those of the sequence without it.
pub proof fn lemma_resolve_skips_uninterpreted(
    interp: Map<Symbol, Seq<Instruction>>,
    before: Seq<Symbol>,
    symbol: Symbol,
    after: Seq<Symbol>,
)
    requires
        !interp.contains_key(symbol),
    ensures
        resolve(interp, before + seq![symbol] + after) == resolve(interp, before) + resolve(
            interp,
            after,
        ),
{
    lemma_resolve_concat(interp, before + seq![symbol], after);
    lemma_resolve_concat(interp, before, seq![symbol]);
    let line = seq![symbol];
    assert(line.drop_last() =~= Seq::<Symbol>::empty());
    assert(line.last() == symbol);
    assert(resolve(interp, line.drop_last()) =~= Seq::<Instruction>::empty());
    assert(draw_symbol(interp, symbol) =~= Seq::<Instruction>::empty());
    assert(resolve(interp, line) =~= Seq::<Instruction>::empty());
    assert(resolve(interp, before) + resolve(interp, line) =~= resolve(interp, before));
}

} // verus!
