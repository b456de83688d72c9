//! Symptom texts: case folding, and membership of a text in a list of texts.

use vstd::prelude::*;

verus! {

/// The contents of a list of strings.
pub open spec fn views(strings: Seq<String>) -> Seq<Seq<char>> {
    strings.map_values(|s: String| s@)
}

/// The lowercase form of a text, as `str::to_lowercase` of the standard
/// library gives it. Two texts are equal without regard to case when their
/// lowercase forms are equal.
pub uninterp spec fn lowercase_of(text: Seq<char>) -> Seq<char>;

/// Calls `str::to_lowercase`. Trusted: the returned string is the lowercase
/// form of `text` that [`lowercase_of`] names; the standard library computes
/// it from the characters of `text` alone.
#[verifier::external_body]
fn lowercase(text: &str) -> (folded: String)
    ensures
        folded@ == lowercase_of(text@),
{
    text.to_lowercase()
}

/// The lowercase forms of a list of texts, in the same order.
pub open spec fn folded(texts: Seq<Seq<char>>) -> Seq<Seq<char>> {
    texts.map_values(|t: Seq<char>| lowercase_of(t))
}

/// How many positions of `items` hold a text that occurs in `pool`. A text
/// that `items` holds twice counts twice.
pub open spec fn present_count(items: Seq<Seq<char>>, pool: Seq<Seq<char>>) -> nat
    decreases items.len(),
{
    if items.len() == 0 {
        0
    } else {
        present_count(items.drop_last(), pool) + if pool.contains(items.last()) {
            1nat
        } else {
            0nat
        }
    }
}

/// Every text of `items` occurs in `pool`.
pub open spec fn all_present(items: Seq<Seq<char>>, pool: Seq<Seq<char>>) -> bool {
    forall|i: int| 0 <= i < items.len() ==> pool.contains(#[trigger] items[i])
}

/// No more positions can match than there are.
pub proof fn lemma_present_count_bound(items: Seq<Seq<char>>, pool: Seq<Seq<char>>)
    ensures
        present_count(items, pool) <= items.len(),
    decreases items.len(),
{
    if items.len() > 0 {
        lemma_present_count_bound(items.drop_last(), pool);
    }
}

/// Nothing matches an empty pool, and an empty list has no matches.
pub proof fn lemma_present_count_empty(items: Seq<Seq<char>>, pool: Seq<Seq<char>>)
    requires
        items.len() == 0 || pool.len() == 0,
    ensures
        present_count(items, pool) == 0,
    decreases items.len(),
{
    if items.len() > 0 {
        lemma_present_count_empty(items.drop_last(), pool);
    }
}

/// The lowercase form of each string of `texts`.
pub fn fold_all(texts: &Vec<String>) -> (result: Vec<String>)
    ensures
        views(result@) == folded(views(texts@)),
{
    let mut result: Vec<String> = Vec::new();
    let mut i: usize = 0;
    while i < texts.len()
        invariant
            i <= texts.len(),
            result.len() == i,
            forall|k: int| 0 <= k < i ==> (#[trigger] result[k])@ == lowercase_of(texts[k]@),
        decreases texts.len() - i,
    {
        result.push(lowercase(texts[i].as_str()));
        i += 1;
    }
    assert(views(result@) =~= folded(views(texts@)));
    result
}

/// Whether `text` is one of the strings of `pool`, compared exactly.
pub fn contains_text(pool: &Vec<String>, text: &String) -> (found: bool)
    ensures
        found == views(pool@).contains(text@),
{
    let mut i: usize = 0;
    while i < pool.len()
        invariant
            i <= pool.len(),
            forall|k: int| 0 <= k < i ==> pool[k]@ != text@,
        decreases pool.len() - i,
    {
        if pool[i] == *text {
            assert(views(pool@)[i as int] == text@);
            return true;
        }
        i += 1;
    }
    false
}

/// How many strings of `items` are among the strings of `pool`, compared
/// exactly.
pub fn count_present(items: &Vec<String>, pool: &Vec<String>) -> (count: usize)
    ensures
        count == present_count(views(items@), views(pool@)),
{
    let mut count: usize = 0;
    let mut i: usize = 0;
    while i < items.len()
        invariant
            i <= items.len(),
            count <= i,
            count == present_count(views(items@).take(i as int), views(pool@)),
        decreases items.len() - i,
    {
        let found = contains_text(pool, &items[i]);
        proof {
            let next = views(items@).take(i + 1);
            assert(next.drop_last() =~= views(items@).take(i as int));
            assert(next.last() == items[i as int]@);
        }
        if found {
            count += 1;
        }
        i += 1;
    }
    assert(views(items@).take(i as int) =~= views(items@));
    count
}

/// Whether every string of `items` is among the strings of `pool`, compared
/// exactly.
pub fn every_present(items: &Vec<String>, pool: &Vec<String>) -> (all: bool)
    ensures
        all == all_present(views(items@), views(pool@)),
{
    let mut i: usize = 0;
    while i < items.len()
        invariant
            i <= items.len(),
            forall|k: int| 0 <= k < i ==> views(pool@).contains(#[trigger] views(items@)[k]),
        decreases items.len() - i,
    {
        if !contains_text(pool, &items[i]) {
            assert(views(items@)[i as int] == items[i as int]@);
            return false;
        }
        assert(views(items@)[i as int] == items[i as int]@);
        i += 1;
    }
    true
}

} // verus!
