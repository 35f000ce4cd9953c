use vstd::prelude::*;

use itertools::Itertools;

verus! {

/// One entry of the card store.
#[derive(Debug, Clone)]
pub struct CardRow {
    pub category: String,
    pub text: String,
    /// Relative likelihood of being drawn by weighted sampling.
    pub weight: u8,
    /// Only enabled cards are ever drawn.
    pub enabled: bool,
}

impl CardRow {
    pub fn new(category: String, text: String, weight: u8, enabled: bool) -> (r: CardRow)
        ensures
            r.category@ == category@,
            r.text@ == text@,
            r.weight == weight,
            r.enabled == enabled,
    {
        CardRow { category, text, weight, enabled }
    }

    /// A card with empty texts, weight 1, enabled: what a fresh row holds.
    pub fn empty_row() -> (r: CardRow)
        ensures
            r.category@ == Seq::<char>::empty(),
            r.text@ == Seq::<char>::empty(),
            r.weight == 1,
            r.enabled,
    {
        CardRow { category: String::new(), text: String::new(), weight: 1, enabled: true }
    }

    /// A field-by-field copy.
    pub fn duplicate(&self) -> (r: CardRow)
        ensures
            r == *self,
    {
        CardRow {
            category: self.category.clone(),
            text: self.text.clone(),
            weight: self.weight,
            enabled: self.enabled,
        }
    }
}

/// Whether `card` belongs to the pool selected by `category` (`None`: any
/// category): it must be enabled and, under a filter, of that category.
pub open spec fn is_eligible(card: CardRow, category: Option<Seq<char>>) -> bool {
    &&& card.enabled
    &&& match category {
        Some(c) => card.category@ == c,
        None => true,
    }
}

/// The cards of `cards` that are eligible under `category`, in store order.
pub open spec fn eligible(cards: Seq<CardRow>, category: Option<Seq<char>>) -> Seq<CardRow>
    decreases cards.len(),
{
    if cards.len() == 0 {
        Seq::empty()
    } else {
        let rest = eligible(cards.drop_last(), category);
        if is_eligible(cards.last(), category) {
            rest.push(cards.last())
        } else {
            rest
        }
    }
}

/// Every card of the eligible pool is eligible, in particular enabled.
pub proof fn lemma_eligible_members(cards: Seq<CardRow>, category: Option<Seq<char>>)
    ensures
        eligible(cards, category).len() <= cards.len(),
        forall|i: int|
            0 <= i < eligible(cards, category).len() ==> is_eligible(
                #[trigger] eligible(cards, category)[i],
                category,
            ),
    decreases cards.len(),
{
    if cards.len() > 0 {
        lemma_eligible_members(cards.drop_last(), category);
    }
}

pub open spec fn view_of_category(category: Option<&String>) -> Option<Seq<char>> {
    match category {
        Some(c) => Some(c@),
        None => None,
    }
}

/// The pool that sampling draws from: the enabled cards of `cards`, restricted
/// to `category` when one is given.
pub fn list_eligible(cards: &Vec<CardRow>, category: Option<&String>) -> (r: Vec<CardRow>)
    ensures
        r@ == eligible(cards@, view_of_category(category)),
        forall|i: int| 0 <= i < r@.len() ==> (#[trigger] r@[i]).enabled,
        forall|i: int|
            0 <= i < r@.len() ==> is_eligible(#[trigger] r@[i], view_of_category(category)),
{
    let ghost cat = view_of_category(category);
    let mut r: Vec<CardRow> = Vec::new();
    let mut i: usize = 0;
    while i < cards.len()
        invariant
            i <= cards@.len(),
            cat == view_of_category(category),
            r@ == eligible(cards@.take(i as int), cat),
        decreases cards@.len() - i,
    {
        let card = &cards[i];
        let keep = match category {
            Some(c) => card.enabled && card.category.eq(c),
            None => card.enabled,
        };
        proof {
            assert(cards@.take(i + 1).drop_last() =~= cards@.take(i as int));
            assert(cards@.take(i + 1).last() == cards@[i as int]);
            assert(keep == is_eligible(cards@[i as int], cat));
        }
        if keep {
            r.push(card.duplicate());
        }
        i = i + 1;
    }
    proof {
        assert(cards@.take(i as int) =~= cards@);
        lemma_eligible_members(cards@, cat);
    }
    r
}

/// `names` with every repeated entry dropped, first occurrences kept in order.
pub open spec fn first_occurrences(names: Seq<Seq<char>>) -> Seq<Seq<char>>
    decreases names.len(),
{
    if names.len() == 0 {
        Seq::empty()
    } else {
        let rest = first_occurrences(names.drop_last());
        if rest.contains(names.last()) {
            rest
        } else {
            rest.push(names.last())
        }
    }
}

pub open spec fn string_views(v: Seq<String>) -> Seq<Seq<char>> {
    v.map_values(|s: String| s@)
}

/// Relies on itertools' `Itertools::unique`: it yields each distinct item once,
/// at its first occurrence, in the input's order (equality of `String` is
/// equality of the characters).
#[verifier::external_body]
fn unique_strings(names: Vec<String>) -> (r: Vec<String>)
    ensures
        string_views(r@) == first_occurrences(string_views(names@)),
{
    names.into_iter().unique().collect()
}

pub open spec fn category_views(cards: Seq<CardRow>) -> Seq<Seq<char>> {
    cards.map_values(|c: CardRow| c.category@)
}

/// The distinct categories of `cards`, in order of first appearance.
pub fn categories(cards: &Vec<CardRow>) -> (r: Vec<String>)
    ensures
        string_views(r@) == first_occurrences(category_views(cards@)),
{
    let mut names: Vec<String> = Vec::new();
    let mut i: usize = 0;
    while i < cards.len()
        invariant
            i <= cards@.len(),
            names@.len() == i,
            forall|j: int| 0 <= j < i ==> (#[trigger] names@[j])@ == cards@[j].category@,
        decreases cards@.len() - i,
    {
        names.push(cards[i].category.clone());
        i = i + 1;
    }
    proof {
        assert(string_views(names@) =~= category_views(cards@));
    }
    unique_strings(names)
}

} // verus!
