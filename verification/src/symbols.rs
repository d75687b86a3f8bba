//! Symbols and sequences of symbols.
//!
//! A symbol is a string; contracts speak of it by its view, a sequence of
//! characters, and two symbols are the same when their views are equal.

use vstd::prelude::*;

verus! {

/// What a symbol is in contracts.
pub type Symbol = Seq<char>;

/// The symbols that a sequence of strings spells, in order.
pub open spec fn views(items: Seq<String>) -> Seq<Symbol> {
    Seq::new(items.len(), |i: int| items[i]@)
}

/// The symbols of a list with one string more are those of the list and
/// that string's symbol.
pub proof fn lemma_views_push(items: Seq<String>, item: String)
    ensures
        views(items.push(item)) == views(items).push(item@),
{
    assert(views(items.push(item)) =~= views(items).push(item@));
}

/// Whether `symbol` occurs among `items`.
pub fn contains_symbol(items: &Vec<String>, symbol: &String) -> (found: bool)
    ensures
        found == views(items@).contains(symbol@),
{
    let mut i: usize = 0;
    while i < items.len()
        invariant
            i <= items.len(),
            forall|k: int| 0 <= k < i ==> views(items@)[k] != symbol@,
        decreases items.len() - i,
    {
        if items[i] == *symbol {
            assert(views(items@)[i as int] == symbol@);
            return true;
        }
        i += 1;
    }
    false
}

/// Adds `symbol` to a list that holds nothing twice, unless it is there.
pub fn insert_symbol(items: &mut Vec<String>, symbol: String)
    requires
        views(old(items)@).no_duplicates(),
    ensures
        views(final(items)@).no_duplicates(),
        views(final(items)@).to_set() == views(old(items)@).to_set().insert(symbol@),
{
    if !contains_symbol(items, &symbol) {
        let ghost before = items@;
        items.push(symbol);
        proof {
            lemma_views_push(before, symbol);
            assert(views(items@).to_set() =~= views(before).to_set().insert(symbol@)) by {
                assert forall|s: Symbol|
                    views(before).push(symbol@).contains(s) <==> (views(before).contains(s) || s
                        == symbol@) by {
                    if views(before).contains(s) {
                        let i = choose|i: int| 0 <= i < views(before).len() && views(before)[i] == s;
                        assert(views(before).push(symbol@)[i] == s);
                    }
                    if s == symbol@ {
                        assert(views(before).push(symbol@)[before.len() as int] == s);
                    }
                }
            }
        }
    } else {
        assert(views(items@).to_set() =~= views(items@).to_set().insert(symbol@));
    }
}

/// Appends a copy of every symbol of `extra` to `out`, in order.
pub fn append_symbols(out: &mut Vec<String>, extra: &Vec<String>)
    ensures
        views(final(out)@) == views(old(out)@) + views(extra@),
{
    let mut j: usize = 0;
    while j < extra.len()
        invariant
            j <= extra.len(),
            views(out@) == views(old(out)@) + views(extra@).take(j as int),
        decreases extra.len() - j,
    {
        let ghost before = out@;
        out.push(extra[j].clone());
        proof {
            lemma_views_push(before, extra@[j as int]);
            assert(views(extra@).take(j as int + 1) =~= views(extra@).take(j as int).push(
                extra@[j as int]@,
            ));
            assert(views(out@) =~= views(old(out)@) + views(extra@).take(j as int + 1));
        }
        j += 1;
    }
    assert(views(extra@).take(extra@.len() as int) =~= views(extra@));
}

/// A copy of `items`, symbol for symbol.
pub fn copy_symbols(items: &Vec<String>) -> (copy: Vec<String>)
    ensures
        views(copy@) == views(items@),
{
    let mut copy: Vec<String> = Vec::new();
    append_symbols(&mut copy, items);
    assert(views(copy@) =~= views(items@));
    copy
}

} // verus!
