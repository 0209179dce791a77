//! An estimate of the tokens in an Anthropic request.
use vstd::prelude::*;
use vstd::string::*;

use crate::folds::lemma_take_next;
use crate::json::{distinct_keys, entries_model, list_model, Json, JsonValue, Object};
use crate::text::same_text;

verus! {

/// Whether a member counts. The data of an image is not prompt text.
pub open spec fn counted(key: Seq<char>) -> bool {
    key != "model"@ && key != "stream"@ && key != "data"@
}

/// The sum of a sequence of numbers.
pub open spec fn seq_sum(numbers: Seq<nat>) -> nat
    decreases numbers.len(),
{
    if numbers.len() == 0 {
        0
    } else {
        seq_sum(numbers.drop_last()) + numbers.last()
    }
}

/// The sum of the numbers in a map.
pub open spec fn map_sum(numbers: Map<Seq<char>, nat>) -> nat
    decreases numbers.dom().len(),
{
    if numbers.dom().finite() && numbers.dom().len() > 0 {
        let key = numbers.dom().choose();
        map_sum(numbers.remove(key)) + numbers[key]
    } else {
        0
    }
}

/// The estimates for the items of a list.
pub open spec fn item_estimates(items: Seq<Json>) -> Seq<nat>
    decreases items,
{
    Seq::new(
        items.len(),
        |i: int|
            if 0 <= i < items.len() {
                estimate(items[i])
            } else {
                0
            },
    )
}

/// The estimates for the members of a record that count.
pub open spec fn member_estimates(record: Map<Seq<char>, Json>) -> Map<Seq<char>, nat>
    decreases record,
{
    Map::new(
        |key: Seq<char>| record.contains_key(key) && counted(key),
        |key: Seq<char>|
            if record.dom().finite() && record.contains_key(key) {
                estimate(record[key])
            } else {
                0
            },
    )
}

/// The estimate for a value: a token for every four characters of a text, rounded up, summed
/// over all texts in the value, except those in members that do not count.
pub open spec fn estimate(value: Json) -> nat
    decreases value,
{
    match value {
        Json::Text(text) => (text.len() + 3) / 4,
        Json::List(items) => seq_sum(item_estimates(items)),
        Json::Record(record) => map_sum(member_estimates(record)),
        _ => 0,
    }
}

/// Any member of a map can be taken out of its sum.
pub proof fn lemma_map_sum_remove(numbers: Map<Seq<char>, nat>, key: Seq<char>)
    requires
        numbers.dom().finite(),
        numbers.contains_key(key),
    ensures
        map_sum(numbers) == map_sum(numbers.remove(key)) + numbers[key],
    decreases numbers.dom().len(),
{
    assert(numbers.dom().len() > 0) by {
        if numbers.dom().len() == 0 {
            assert(numbers.dom() =~= Set::empty());
        }
    }
    let first = numbers.dom().choose();
    assert(numbers.dom().contains(first)) by {
        assert(numbers.dom().contains(key));
    }
    if first != key {
        let rest = numbers.remove(first);
        lemma_map_sum_remove(rest, key);
        lemma_map_sum_remove(numbers.remove(key), first);
        assert(rest.remove(key) =~= numbers.remove(key).remove(first));
    }
}

proof fn lemma_finite(entries: Seq<(String, JsonValue)>)
    ensures
        entries_model(entries).dom().finite(),
    decreases entries.len(),
{
    if entries.len() > 0 {
        lemma_finite(entries.drop_last());
    }
}

proof fn lemma_estimates_finite(record: Map<Seq<char>, Json>)
    requires
        record.dom().finite(),
    ensures
        member_estimates(record).dom().finite(),
{
    assert(member_estimates(record).dom().subset_of(record.dom()));
    vstd::set_lib::lemma_set_subset_finite(record.dom(), member_estimates(record).dom());
}

/// A new member adds its estimate to that of a record, if it counts.
pub proof fn lemma_estimate_insert(record: Map<Seq<char>, Json>, key: Seq<char>, value: Json)
    requires
        record.dom().finite(),
        !record.contains_key(key),
    ensures
        estimate(Json::Record(record.insert(key, value))) == estimate(Json::Record(record)) + if counted(
            key,
        ) {
            estimate(value)
        } else {
            0
        },
{
    let more = record.insert(key, value);
    lemma_estimates_finite(record);
    lemma_estimates_finite(more);
    if counted(key) {
        lemma_map_sum_remove(member_estimates(more), key);
        assert(member_estimates(more).remove(key) =~= member_estimates(record));
    } else {
        assert(member_estimates(more) =~= member_estimates(record));
    }
}

/// A member that does not count changes nothing, whether it is new or takes the place of another:
/// the model, the stream flag and the data of an image have no part in the estimate.
pub proof fn lemma_uncounted_member(record: Map<Seq<char>, Json>, key: Seq<char>, value: Json)
    requires
        record.dom().finite(),
        !counted(key),
    ensures
        estimate(Json::Record(record.insert(key, value))) == estimate(Json::Record(record)),
{
    assert(member_estimates(record.insert(key, value)) =~= member_estimates(record));
}

/// Whether two values differ at most in members that do not count, at any depth.
pub open spec fn same_but_uncounted(a: Json, b: Json) -> bool
    decreases a,
{
    match (a, b) {
        (Json::List(x), Json::List(y)) => x.len() == y.len() && forall|i: int|
            0 <= i < x.len() ==> same_but_uncounted(#[trigger] x[i], y[i]),
        (Json::Record(x), Json::Record(y)) => x.dom().finite() && y.dom().finite() && forall|
            key: Seq<char>,
        |
            counted(key) ==> (#[trigger] x.contains_key(key) == y.contains_key(key)) && (
            x.contains_key(key) ==> same_but_uncounted(x[key], y[key])),
        _ => a == b,
    }
}

/// The model, the stream flag and the data of an image have no part in the estimate, wherever they
/// stand: two values that differ only in such members, at any depth, have the same estimate.
pub proof fn lemma_uncounted_anywhere(a: Json, b: Json)
    requires
        same_but_uncounted(a, b),
    ensures
        estimate(a) == estimate(b),
    decreases a,
{
    match (a, b) {
        (Json::List(x), Json::List(y)) => {
            assert forall|i: int| 0 <= i < x.len() implies item_estimates(x)[i] == item_estimates(
                y,
            )[i] by {
                assert(same_but_uncounted(x[i], y[i]));
                lemma_uncounted_anywhere(x[i], y[i]);
            }
            assert(item_estimates(x) =~= item_estimates(y));
        },
        (Json::Record(x), Json::Record(y)) => {
            let p = member_estimates(x);
            let q = member_estimates(y);
            assert forall|key: Seq<char>| p.contains_key(key) == q.contains_key(key) by {
                if counted(key) {
                    assert(x.contains_key(key) == y.contains_key(key));
                }
            }
            assert forall|key: Seq<char>| #[trigger] p.contains_key(key) implies p[key] == q[key] by {
                assert(x.contains_key(key) == y.contains_key(key));
                lemma_uncounted_anywhere(x[key], y[key]);
            }
            assert(p.dom() =~= q.dom());
            assert(p =~= q);
        },
        _ => {},
    }
}

proof fn lemma_seq_sum_append(first: Seq<nat>, second: Seq<nat>)
    ensures
        seq_sum(first + second) == seq_sum(first) + seq_sum(second),
    decreases second.len(),
{
    if second.len() == 0 {
        assert(first + second =~= first);
    } else {
        lemma_seq_sum_append(first, second.drop_last());
        assert((first + second).drop_last() =~= first + second.drop_last());
    }
}

/// A text has a token for every four characters that it has begun, and nothing else that is no
/// list and no record has any.
pub proof fn lemma_estimate_of_text(text: Seq<char>, value: Json)
    ensures
        4 * estimate(Json::Text(text)) >= text.len(),
        text.len() > 4 * (estimate(Json::Text(text)) - 1),
        !(value is Text || value is List || value is Record) ==> estimate(value) == 0,
{
}

/// The estimate of a list is the sum over its parts, down to its items.
pub proof fn lemma_estimate_of_list(first: Seq<Json>, second: Seq<Json>, item: Json)
    ensures
        estimate(Json::List(first + second)) == estimate(Json::List(first)) + estimate(
            Json::List(second),
        ),
        estimate(Json::List(seq![item])) == estimate(item),
        estimate(Json::List(Seq::empty())) == 0,
{
    assert(item_estimates(first + second) =~= item_estimates(first) + item_estimates(second));
    lemma_seq_sum_append(item_estimates(first), item_estimates(second));
    assert(item_estimates(seq![item]) =~= seq![estimate(item)]);
    reveal_with_fuel(seq_sum, 2);
    assert(item_estimates(Seq::<Json>::empty()) =~= Seq::<nat>::empty());
}

/// The estimate of a record is the sum over its members, but for the model, the stream flag and
/// data: taking a member out takes out its estimate, and nothing is left of no members.
pub proof fn lemma_estimate_of_record(record: Map<Seq<char>, Json>, key: Seq<char>)
    requires
        record.dom().finite(),
        record.contains_key(key),
    ensures
        key == "model"@ || key == "stream"@ || key == "data"@ ==> estimate(Json::Record(record))
            == estimate(Json::Record(record.remove(key))),
        key != "model"@ && key != "stream"@ && key != "data"@ ==> estimate(Json::Record(record))
            == estimate(Json::Record(record.remove(key))) + estimate(record[key]),
        estimate(Json::Record(Map::empty())) == 0,
{
    let rest = record.remove(key);
    lemma_estimate_insert(rest, key, record[key]);
    assert(rest.insert(key, record[key]) =~= record);
    assert(member_estimates(Map::empty()).dom() =~= Set::<Seq<char>>::empty());
}

// What stands before the i-th entry.
spec fn entries_estimate(entries: Seq<(String, JsonValue)>, i: int) -> nat {
    estimate(Json::Record(entries_model(entries.take(i))))
}

proof fn lemma_entries_step(entries: Seq<(String, JsonValue)>, i: int)
    requires
        distinct_keys(entries),
        0 <= i < entries.len(),
    ensures
        entries_estimate(entries, i + 1) == entries_estimate(entries, i) + if counted(
            entries[i].0@,
        ) {
            estimate(entries[i].1@)
        } else {
            0
        },
{
    lemma_take_next(entries, i);
    let before = entries.take(i);
    lemma_finite(before);
    assert(!entries_model(before).contains_key(entries[i].0@)) by {
        lemma_keys(before, entries[i].0@);
        assert forall|j: int| 0 <= j < before.len() implies #[trigger] before[j].0@ != entries[i].0@ by {
            assert(before[j] == entries[j]);
            assert(entries[j].0@ != entries[i].0@);
        }
    }
    lemma_estimate_insert(entries_model(before), entries[i].0@, entries[i].1@);
}

proof fn lemma_keys(entries: Seq<(String, JsonValue)>, key: Seq<char>)
    ensures
        entries_model(entries).contains_key(key) ==> exists|j: int|
            0 <= j < entries.len() && #[trigger] entries[j].0@ == key,
    decreases entries.len(),
{
    if entries.len() > 0 && entries_model(entries).contains_key(key) {
        let shorter = entries.drop_last();
        lemma_keys(shorter, key);
        if entries.last().0@ == key {
            assert(entries[entries.len() - 1].0@ == key);
        } else {
            let j = choose|j: int| 0 <= j < shorter.len() && #[trigger] shorter[j].0@ == key;
            assert(entries[j].0@ == key);
        }
    }
}

proof fn lemma_entries_bound(entries: Seq<(String, JsonValue)>, i: int)
    requires
        distinct_keys(entries),
        0 <= i <= entries.len(),
    ensures
        entries_estimate(entries, i) <= estimate(Json::Record(entries_model(entries))),
    decreases entries.len() - i,
{
    if i < entries.len() {
        lemma_entries_step(entries, i);
        lemma_entries_bound(entries, i + 1);
    } else {
        assert(entries.take(i) =~= entries);
    }
}

proof fn lemma_sum_bound(numbers: Seq<nat>, i: int)
    requires
        0 <= i <= numbers.len(),
    ensures
        seq_sum(numbers.take(i)) <= seq_sum(numbers),
    decreases numbers.len() - i,
{
    if i < numbers.len() {
        lemma_take_next(numbers, i);
        lemma_sum_bound(numbers, i + 1);
    } else {
        assert(numbers.take(i) =~= numbers);
    }
}

/// A count, where a `u64` holds it.
pub open spec fn fitting(count: nat) -> Option<u64> {
    if count <= u64::MAX {
        Some(count as u64)
    } else {
        None
    }
}

fn estimate_value(value: &JsonValue) -> (r: Option<u64>)
    ensures
        r == fitting(estimate(value@)),
    decreases value,
{
    match value {
        JsonValue::String(text) => {
            let len = text.as_str().unicode_len() as u64;
            if len % 4 == 0 {
                Some(len / 4)
            } else {
                Some(len / 4 + 1)
            }
        },
        JsonValue::Array(items) => estimate_items(items),
        JsonValue::Object(object) => estimate_object(object),
        _ => Some(0),
    }
}

fn estimate_items(items: &Vec<JsonValue>) -> (r: Option<u64>)
    ensures
        r == fitting(seq_sum(item_estimates(list_model(items@)))),
    decreases items,
{
    let ghost numbers = item_estimates(list_model(items@));
    let mut sum: u64 = 0;
    let mut i: usize = 0;
    assert(numbers.take(0) =~= Seq::<nat>::empty());
    while i < items.len()
        invariant
            i <= items@.len(),
            numbers == item_estimates(list_model(items@)),
            sum == seq_sum(numbers.take(i as int)),
        decreases items@.len() - i,
    {
        proof {
            lemma_take_next(numbers, i as int);
            lemma_sum_bound(numbers, i + 1);
            assert(decreases_to!(*items => items@[i as int]));
        }
        match estimate_value(&items[i]) {
            Some(next) => match sum.checked_add(next) {
                Some(total) => {
                    sum = total;
                },
                None => return None,
            },
            None => return None,
        }
        i += 1;
    }
    assert(numbers.take(i as int) =~= numbers);
    Some(sum)
}

fn estimate_object(object: &Object) -> (r: Option<u64>)
    ensures
        r == fitting(estimate(Json::Record(object@))),
    decreases object,
{
    let entries = object.entries();
    let mut sum: u64 = 0;
    let mut i: usize = 0;
    proof {
        assert(entries@.take(0) =~= Seq::<(String, JsonValue)>::empty());
        assert(member_estimates(Map::empty()).dom() =~= Set::<Seq<char>>::empty());
    }
    while i < entries.len()
        invariant
            i <= entries@.len(),
            distinct_keys(entries@),
            object@ == entries_model(entries@),
            entries@ == object.listed(),
            sum == entries_estimate(entries@, i as int),
        decreases entries@.len() - i,
    {
        let entry = &entries[i];
        proof {
            lemma_entries_step(entries@, i as int);
            lemma_entries_bound(entries@, i + 1);
        }
        let key = entry.0.as_str();
        if !same_text(key, "model") && !same_text(key, "stream") && !same_text(key, "data") {
            proof {
                object.lemma_entry_smaller(i as int);
            }
            match estimate_value(&entry.1) {
                Some(next) => match sum.checked_add(next) {
                    Some(total) => {
                        sum = total;
                    },
                    None => return None,
                },
                None => return None,
            }
        }
        i += 1;
    }
    assert(entries@.take(i as int) =~= entries@);
    Some(sum)
}

/// Whether the estimate for a request fits in a `u64`.
pub fn estimate_fits(body: &JsonValue) -> (r: bool)
    ensures
        r == (estimate(body@) <= u64::MAX),
{
    estimate_value(body).is_some()
}

/// Estimates the tokens in a request, at least one.
pub fn estimate_anthropic_input_tokens(body: &JsonValue) -> (r: u64)
    requires
        estimate(body@) <= u64::MAX,
    ensures
        r == if estimate(body@) == 0 {
            1
        } else {
            estimate(body@)
        },
{
    match estimate_value(body) {
        Some(sum) => if sum == 0 {
            1
        } else {
            sum
        },
        None => 1,
    }
}

} // verus!
