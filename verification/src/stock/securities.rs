//! Securities, and a collection that holds them by symbol.

use super::exchanges::Exchange;
use crate::text::{
    comes_before, lemma_texts_carry_over, lemma_texts_in_line, same_text, text_precedes,
};
use vstd::prelude::*;

verus! {

/// A security listed on an exchange.
#[allow(non_snake_case)]
#[derive(Debug)]
pub struct Security {
    /// The symbol under which the security trades.
    pub symbol: String,
    /// The security's full name.
    pub name: String,
    /// The exchange that lists the security.
    pub exchange: Exchange,
    /// Whether the security is an exchange-traded fund.
    pub isETF: bool,
}

/// What a security holds, with its texts as sequences of characters.
#[allow(non_snake_case)]
pub ghost struct SecurityView {
    pub symbol: Seq<char>,
    pub name: Seq<char>,
    pub exchange: Exchange,
    pub isETF: bool,
}

impl View for Security {
    type V = SecurityView;

    open spec fn view(&self) -> SecurityView {
        SecurityView {
            symbol: self.symbol@,
            name: self.name@,
            exchange: self.exchange,
            isETF: self.isETF,
        }
    }
}

impl Clone for Security {
    fn clone(&self) -> (copy: Self)
        ensures
            copy@ == self@,
    {
        Security {
            symbol: self.symbol.clone(),
            name: self.name.clone(),
            exchange: self.exchange,
            isETF: self.isETF,
        }
    }
}

/// Whether the entries stand in ascending order of their symbols, each
/// symbol once.
pub open spec fn ascending(entries: Seq<SecurityView>) -> bool {
    forall|i: int, j: int|
        0 <= i < j < entries.len() ==> text_precedes(
            #[trigger] entries[i].symbol,
            #[trigger] entries[j].symbol,
        )
}

/// Whether an entry with the symbol stands at the place.
pub open spec fn stands_at(entries: Seq<SecurityView>, symbol: Seq<char>, place: int) -> bool {
    0 <= place < entries.len() && entries[place].symbol == symbol
}

/// The entries as a map from symbol to security.
pub open spec fn by_symbol(entries: Seq<SecurityView>) -> Map<Seq<char>, SecurityView> {
    Map::new(
        |symbol: Seq<char>| exists|place: int| stands_at(entries, symbol, place),
        |symbol: Seq<char>| entries[choose|place: int| stands_at(entries, symbol, place)],
    )
}

/// In ascending entries a symbol stands at one place at most, so the map
/// holds each entry under its symbol.
proof fn lemma_one_place(entries: Seq<SecurityView>, place: int)
    requires
        ascending(entries),
        0 <= place < entries.len(),
    ensures
        by_symbol(entries).contains_key(entries[place].symbol),
        by_symbol(entries)[entries[place].symbol] == entries[place],
{
    let symbol = entries[place].symbol;
    assert(stands_at(entries, symbol, place));
    let chosen = choose|at: int| stands_at(entries, symbol, at);
    lemma_texts_in_line(symbol, symbol);
    assert(chosen == place) by {
        if chosen < place {
            assert(text_precedes(entries[chosen].symbol, entries[place].symbol));
        } else if place < chosen {
            assert(text_precedes(entries[place].symbol, entries[chosen].symbol));
        }
    }
}

/// Putting a security in at the place where its symbol belongs keeps the
/// order and adds it to the map.
proof fn lemma_put_in(entries: Seq<SecurityView>, place: int, security: SecurityView)
    requires
        ascending(entries),
        0 <= place <= entries.len(),
        forall|j: int| 0 <= j < place ==> text_precedes(#[trigger] entries[j].symbol, security.symbol),
        forall|j: int|
            place <= j < entries.len() ==> text_precedes(security.symbol, #[trigger] entries[j].symbol),
    ensures
        ascending(entries.insert(place, security)),
        by_symbol(entries.insert(place, security)) == by_symbol(entries).insert(
            security.symbol,
            security,
        ),
{
    let after = entries.insert(place, security);
    assert forall|i: int, j: int| 0 <= i < j < after.len() implies text_precedes(
        #[trigger] after[i].symbol,
        #[trigger] after[j].symbol,
    ) by {
        let from_i = if i < place { i } else { i - 1 };
        let from_j = if j < place { j } else { j - 1 };
        if i != place && j != place {
            assert(text_precedes(entries[from_i].symbol, entries[from_j].symbol));
        }
    }
    lemma_one_place(after, place);
    assert forall|symbol: Seq<char>|
        by_symbol(after).contains_key(symbol) <==> #[trigger] by_symbol(entries).insert(
            security.symbol,
            security,
        ).contains_key(symbol) by {
        if by_symbol(after).contains_key(symbol) && symbol != security.symbol {
            let at = choose|at: int| stands_at(after, symbol, at);
            assert(stands_at(entries, symbol, if at < place { at } else { at - 1 }));
        }
        if by_symbol(entries).contains_key(symbol) {
            let at = choose|at: int| stands_at(entries, symbol, at);
            assert(stands_at(after, symbol, if at < place { at } else { at + 1 }));
        }
    }
    assert forall|symbol: Seq<char>| #[trigger] by_symbol(after).contains_key(symbol) implies by_symbol(
        after,
    )[symbol] == by_symbol(entries).insert(security.symbol, security)[symbol] by {
        if symbol != security.symbol {
            let at = choose|at: int| stands_at(after, symbol, at);
            lemma_one_place(after, at);
            lemma_one_place(entries, if at < place { at } else { at - 1 });
        }
    }
    assert(by_symbol(after) =~= by_symbol(entries).insert(security.symbol, security));
}

/// Putting a security in the place of the one with its symbol keeps the
/// order and gives the symbol the new security in the map.
proof fn lemma_put_over(entries: Seq<SecurityView>, place: int, security: SecurityView)
    requires
        ascending(entries),
        0 <= place < entries.len(),
        entries[place].symbol == security.symbol,
    ensures
        ascending(entries.update(place, security)),
        by_symbol(entries.update(place, security)) == by_symbol(entries).insert(
            security.symbol,
            security,
        ),
{
    let after = entries.update(place, security);
    assert forall|i: int, j: int| 0 <= i < j < after.len() implies text_precedes(
        #[trigger] after[i].symbol,
        #[trigger] after[j].symbol,
    ) by {
        assert(text_precedes(entries[i].symbol, entries[j].symbol));
    }
    lemma_one_place(after, place);
    assert forall|symbol: Seq<char>|
        by_symbol(after).contains_key(symbol) <==> #[trigger] by_symbol(entries).insert(
            security.symbol,
            security,
        ).contains_key(symbol) by {
        if by_symbol(after).contains_key(symbol) {
            let at = choose|at: int| stands_at(after, symbol, at);
            assert(stands_at(entries, symbol, at));
        }
        if by_symbol(entries).contains_key(symbol) {
            let at = choose|at: int| stands_at(entries, symbol, at);
            assert(stands_at(after, symbol, at));
        }
    }
    assert forall|symbol: Seq<char>| #[trigger] by_symbol(after).contains_key(symbol) implies by_symbol(
        after,
    )[symbol] == by_symbol(entries).insert(security.symbol, security)[symbol] by {
        if symbol != security.symbol {
            let at = choose|at: int| stands_at(after, symbol, at);
            lemma_one_place(after, at);
            lemma_one_place(entries, at);
        }
    }
    assert(by_symbol(after) =~= by_symbol(entries).insert(security.symbol, security));
}

/// The securities that were loaded, each under its symbol.
pub struct Securities {
    loaded: Vec<Security>,
}

impl View for Securities {
    type V = Map<Seq<char>, SecurityView>;

    closed spec fn view(&self) -> Map<Seq<char>, SecurityView> {
        by_symbol(self.in_order())
    }
}

impl Securities {
    /// The securities that are held, in the order in which they are handed
    /// out.
    pub closed spec fn held(&self) -> Seq<Security> {
        self.loaded@
    }

    /// What the securities hold, in the order in which they are handed out.
    pub open spec fn in_order(&self) -> Seq<SecurityView> {
        self.held().map_values(|security: Security| security@)
    }

    #[verifier::type_invariant]
    spec fn sorted(&self) -> bool {
        ascending(self.in_order())
    }

    /// A collection that holds no security.
    pub fn new() -> (empty: Self)
        ensures
            empty@ == Map::<Seq<char>, SecurityView>::empty(),
            empty.in_order() == Seq::<SecurityView>::empty(),
    {
        let empty = Securities { loaded: Vec::new() };
        assert(empty@ =~= Map::<Seq<char>, SecurityView>::empty());
        assert(empty.in_order() =~= Seq::<SecurityView>::empty());
        empty
    }

    /// The place where a symbol belongs: the number of securities whose
    /// symbols come before it.
    fn rank(&self, symbol: &str) -> (place: usize)
        ensures
            place <= self.in_order().len(),
            forall|j: int|
                0 <= j < place ==> text_precedes(#[trigger] self.in_order()[j].symbol, symbol@),
            forall|j: int|
                place <= j < self.in_order().len() ==> !text_precedes(
                    #[trigger] self.in_order()[j].symbol,
                    symbol@,
                ),
    {
        proof {
            use_type_invariant(self);
        }
        let mut low: usize = 0;
        let mut high: usize = self.loaded.len();
        while low < high
            invariant
                low <= high <= self.loaded.len(),
                ascending(self.in_order()),
                forall|j: int|
                    0 <= j < low ==> text_precedes(#[trigger] self.in_order()[j].symbol, symbol@),
                forall|j: int|
                    high <= j < self.in_order().len() ==> !text_precedes(
                        #[trigger] self.in_order()[j].symbol,
                        symbol@,
                    ),
            decreases high - low,
        {
            let middle = low + (high - low) / 2;
            let ghost pivot = self.in_order()[middle as int].symbol;
            if comes_before(self.loaded[middle].symbol.as_str(), symbol) {
                proof {
                    assert forall|j: int| 0 <= j < middle + 1 implies text_precedes(
                        #[trigger] self.in_order()[j].symbol,
                        symbol@,
                    ) by {
                        if j < middle {
                            assert(text_precedes(self.in_order()[j].symbol, pivot));
                            lemma_texts_carry_over(self.in_order()[j].symbol, pivot, symbol@);
                        }
                    }
                }
                low = middle + 1;
            } else {
                proof {
                    assert forall|j: int| middle <= j < self.in_order().len() implies !text_precedes(
                        #[trigger] self.in_order()[j].symbol,
                        symbol@,
                    ) by {
                        if middle < j && text_precedes(self.in_order()[j].symbol, symbol@) {
                            assert(text_precedes(pivot, self.in_order()[j].symbol));
                            lemma_texts_carry_over(pivot, self.in_order()[j].symbol, symbol@);
                        }
                    }
                }
                high = middle;
            }
        }
        low
    }

    /// The security with the given symbol, if one is held.
    pub fn get(&self, symbol: &str) -> (found: Option<&Security>)
        ensures
            match found {
                Some(security) => self@.contains_key(symbol@) && self@[symbol@] == security@,
                None => !self@.contains_key(symbol@),
            },
    {
        proof {
            use_type_invariant(self);
        }
        let place = self.rank(symbol);
        if place < self.loaded.len() && same_text(self.loaded[place].symbol.as_str(), symbol) {
            proof {
                lemma_one_place(self.in_order(), place as int);
            }
            Some(&self.loaded[place])
        } else {
            proof {
                if self@.contains_key(symbol@) {
                    let at = choose|at: int| stands_at(self.in_order(), symbol@, at);
                    lemma_texts_in_line(symbol@, symbol@);
                    if at < place {
                        assert(text_precedes(self.in_order()[at].symbol, symbol@));
                    } else if at > place {
                        assert(text_precedes(
                            self.in_order()[place as int].symbol,
                            self.in_order()[at].symbol,
                        ));
                    }
                }
            }
            None
        }
    }

    /// The number of securities held.
    pub fn len(&self) -> (count: usize)
        ensures
            count == self@.len(),
            count == self.in_order().len(),
            self@.dom().finite(),
    {
        proof {
            use_type_invariant(self);
            lemma_count(self.in_order());
        }
        self.loaded.len()
    }

    /// Holds the security under its symbol, in place of the one that was
    /// held under that symbol, if any.
    pub fn insert(&mut self, security: Security)
        ensures
            final(self)@ == old(self)@.insert(security.symbol@, security@),
    {
        proof {
            use_type_invariant(&*self);
        }
        let place = self.rank(security.symbol.as_str());
        let ghost before = self.in_order();
        let over = place < self.loaded.len() && same_text(
            self.loaded[place].symbol.as_str(),
            security.symbol.as_str(),
        );
        proof {
            if over {
                lemma_put_over(before, place as int, security@);
                assert(self.loaded@.update(place as int, security).map_values(
                    |security: Security| security@,
                ) =~= before.update(place as int, security@));
            } else {
                assert forall|j: int| place <= j < before.len() implies text_precedes(
                    security.symbol@,
                    #[trigger] before[j].symbol,
                ) by {
                    lemma_texts_in_line(security.symbol@, before[place as int].symbol);
                    if place < j {
                        assert(text_precedes(before[place as int].symbol, before[j].symbol));
                        lemma_texts_carry_over(security.symbol@, before[place as int].symbol, before[j].symbol);
                    }
                }
                lemma_put_in(before, place as int, security@);
                assert(self.loaded@.insert(place as int, security).map_values(
                    |security: Security| security@,
                ) =~= before.insert(place as int, security@));
            }
        }
        // the securities leave the collection while they change: it holds
        // them in order at every moment
        let mut held: Vec<Security> = Vec::new();
        std::mem::swap(&mut self.loaded, &mut held);
        if over {
            held.set(place, security);
        } else {
            held.insert(place, security);
        }
        self.loaded = held;
    }

    /// The securities held, in ascending order of their symbols.
    pub fn values(&self) -> (all: &Vec<Security>)
        ensures
            all@ == self.held(),
            ascending(self.in_order()),
            self@ == by_symbol(self.in_order()),
    {
        proof {
            use_type_invariant(self);
        }
        &self.loaded
    }
}

/// Ascending entries are as many as the symbols of their map.
proof fn lemma_count(entries: Seq<SecurityView>)
    requires
        ascending(entries),
    ensures
        by_symbol(entries).dom().finite(),
        by_symbol(entries).len() == entries.len(),
{
    let symbols = entries.map_values(|entry: SecurityView| entry.symbol);
    assert forall|i: int, j: int| 0 <= i < symbols.len() && 0 <= j < symbols.len() && i != j implies symbols[i]
        != symbols[j] by {
        lemma_texts_in_line(symbols[i], symbols[j]);
        if i < j {
            assert(text_precedes(entries[i].symbol, entries[j].symbol));
        } else {
            assert(text_precedes(entries[j].symbol, entries[i].symbol));
        }
    }
    symbols.unique_seq_to_set();
    assert(by_symbol(entries).dom() =~= symbols.to_set()) by {
        assert forall|symbol: Seq<char>| by_symbol(entries).dom().contains(symbol) implies symbols.to_set().contains(
            symbol,
        ) by {
            let at = choose|at: int| stands_at(entries, symbol, at);
            assert(symbols[at] == symbol);
        }
        assert forall|symbol: Seq<char>| symbols.to_set().contains(symbol) implies by_symbol(
            entries,
        ).dom().contains(symbol) by {
            let at = choose|at: int| 0 <= at < symbols.len() && symbols[at] == symbol;
            assert(stands_at(entries, symbol, at));
        }
    }
    vstd::seq_lib::seq_to_set_is_finite(symbols);
}

impl Clone for Securities {
    fn clone(&self) -> (copy: Self)
        ensures
            copy@ == self@,
            copy.in_order() == self.in_order(),
    {
        proof {
            use_type_invariant(self);
        }
        let mut held: Vec<Security> = Vec::new();
        let mut i: usize = 0;
        while i < self.loaded.len()
            invariant
                i <= self.loaded.len(),
                held@.len() == i,
                self.in_order().len() == self.loaded.len(),
                forall|j: int| 0 <= j < self.loaded.len() ==> self.in_order()[j] == self.loaded[j]@,
                held@.map_values(|security: Security| security@) == self.in_order().take(i as int),
            decreases self.loaded.len() - i,
        {
            let ghost before = held@;
            held.push(self.loaded[i].clone());
            proof {
                let views = held@.map_values(|security: Security| security@);
                assert forall|j: int| 0 <= j < i + 1 implies views[j] == self.in_order()[j] by {
                    if j < i {
                        assert(before.map_values(|security: Security| security@)[j]
                            == self.in_order().take(i as int)[j]);
                    }
                }
                assert(views =~= self.in_order().take(i + 1));
            }
            i += 1;
        }
        proof {
            assert(self.in_order().take(i as int) =~= self.in_order());
        }
        Securities { loaded: held }
    }
}

impl<'a> IntoIterator for &'a Securities {
    type Item = &'a Security;

    type IntoIter = std::slice::Iter<'a, Security>;

    /// Hands out the securities in ascending order of their symbols.
    fn into_iter(self) -> (securities: std::slice::Iter<'a, Security>)
        ensures
            vstd::std_specs::iter::IteratorSpec::remaining(&securities) == self.held().as_ref(),
    {
        self.values().iter()
    }
}

/// Without their first entry, ascending entries hold what their map holds
/// without the first symbol.
proof fn lemma_rest(entries: Seq<SecurityView>)
    requires
        ascending(entries),
        entries.len() > 0,
    ensures
        ascending(entries.drop_first()),
        by_symbol(entries.drop_first()) == by_symbol(entries).remove(entries[0].symbol),
{
    let rest = entries.drop_first();
    assert forall|i: int, j: int| 0 <= i < j < rest.len() implies text_precedes(
        #[trigger] rest[i].symbol,
        #[trigger] rest[j].symbol,
    ) by {
        assert(text_precedes(entries[i + 1].symbol, entries[j + 1].symbol));
    }
    let first = entries[0].symbol;
    lemma_texts_in_line(first, first);
    assert forall|symbol: Seq<char>|
        by_symbol(rest).contains_key(symbol) <==> #[trigger] by_symbol(entries).remove(
            first,
        ).contains_key(symbol) by {
        if by_symbol(rest).contains_key(symbol) {
            let at = choose|at: int| stands_at(rest, symbol, at);
            assert(stands_at(entries, symbol, at + 1));
            assert(text_precedes(entries[0].symbol, entries[at + 1].symbol));
        }
        if by_symbol(entries).contains_key(symbol) && symbol != first {
            let at = choose|at: int| stands_at(entries, symbol, at);
            assert(stands_at(rest, symbol, at - 1));
        }
    }
    assert forall|symbol: Seq<char>| #[trigger] by_symbol(rest).contains_key(symbol) implies by_symbol(
        rest,
    )[symbol] == by_symbol(entries).remove(first)[symbol] by {
        let at = choose|at: int| stands_at(rest, symbol, at);
        lemma_one_place(rest, at);
        lemma_one_place(entries, at + 1);
    }
    assert(by_symbol(rest) =~= by_symbol(entries).remove(first));
}

/// The order in which securities are handed out follows from what is held:
/// ascending entries with the same map are the same entries.
pub proof fn law_the_map_fixes_the_order(a: Seq<SecurityView>, b: Seq<SecurityView>)
    requires
        ascending(a),
        ascending(b),
        by_symbol(a) == by_symbol(b),
    ensures
        a == b,
    decreases a.len(),
{
    lemma_count(a);
    lemma_count(b);
    if a.len() == 0 {
        assert(a =~= b);
    } else {
        lemma_one_place(a, 0);
        lemma_one_place(b, 0);
        let in_b = choose|at: int| stands_at(b, a[0].symbol, at);
        let in_a = choose|at: int| stands_at(a, b[0].symbol, at);
        lemma_one_place(b, in_b);
        lemma_one_place(a, in_a);
        lemma_texts_in_line(a[0].symbol, b[0].symbol);
        if in_b > 0 {
            assert(text_precedes(b[0].symbol, b[in_b].symbol));
            if in_a > 0 {
                assert(text_precedes(a[0].symbol, a[in_a].symbol));
            }
        }
        assert(a[0] == b[0]);
        lemma_rest(a);
        lemma_rest(b);
        law_the_map_fixes_the_order(a.drop_first(), b.drop_first());
        assert(a =~= seq![a[0]] + a.drop_first());
        assert(b =~= seq![b[0]] + b.drop_first());
    }
}

} // verus!
