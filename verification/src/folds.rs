//! Ways to go through a sequence: convert each element or stop at the first error, pick out
//! some elements, and join what came out.
use vstd::prelude::*;

verus! {

/// Each element converted, or the error of the first that cannot be.
pub open spec fn try_all<A, B>(
    items: Seq<A>,
    convert: spec_fn(A) -> Result<B, Seq<char>>,
) -> Result<Seq<B>, Seq<char>>
    decreases items.len(),
{
    if items.len() == 0 {
        Ok(Seq::empty())
    } else {
        match try_all(items.drop_last(), convert) {
            Ok(done) => match convert(items.last()) {
                Ok(next) => Ok(done.push(next)),
                Err(message) => Err(message),
            },
            Err(message) => Err(message),
        }
    }
}

/// What a partial conversion gives for the elements that it accepts.
pub open spec fn pick<A, B>(items: Seq<A>, choice: spec_fn(A) -> Option<B>) -> Seq<B>
    decreases items.len(),
{
    if items.len() == 0 {
        Seq::empty()
    } else {
        let before = pick(items.drop_last(), choice);
        match choice(items.last()) {
            Some(next) => before.push(next),
            None => before,
        }
    }
}

/// The parts, one after the other.
pub open spec fn joined<A>(parts: Seq<Seq<A>>) -> Seq<A>
    decreases parts.len(),
{
    if parts.len() == 0 {
        Seq::empty()
    } else {
        joined(parts.drop_last()) + parts.last()
    }
}

/// One more element in a prefix.
pub proof fn lemma_take_next<A>(items: Seq<A>, i: int)
    requires
        0 <= i < items.len(),
    ensures
        items.take(i + 1).drop_last() == items.take(i),
        items.take(i + 1).last() == items[i],
        items.take(i + 1).len() == i + 1,
{
    assert(items.take(i + 1).drop_last() =~= items.take(i));
}

/// An error in a prefix is the error of the whole.
pub proof fn lemma_try_all_stops<A, B>(
    items: Seq<A>,
    convert: spec_fn(A) -> Result<B, Seq<char>>,
    i: int,
)
    requires
        0 <= i <= items.len(),
        try_all(items.take(i), convert) is Err,
    ensures
        try_all(items, convert) == try_all(items.take(i), convert),
    decreases items.len() - i,
{
    if i < items.len() {
        lemma_take_next(items, i);
        lemma_try_all_stops(items, convert, i + 1);
    } else {
        assert(items.take(i) =~= items);
    }
}

/// Where the conversion of all succeeds, element `i` of the result is what element `i` gave.
pub proof fn lemma_try_all_each<A, B>(
    items: Seq<A>,
    convert: spec_fn(A) -> Result<B, Seq<char>>,
)
    requires
        try_all(items, convert) is Ok,
    ensures
        try_all(items, convert)->Ok_0.len() == items.len(),
        forall|i: int|
            0 <= i < items.len() ==> convert(#[trigger] items[i]) == Ok::<B, Seq<char>>(
                try_all(items, convert)->Ok_0[i],
            ),
    decreases items.len(),
{
    if items.len() > 0 {
        lemma_try_all_each(items.drop_last(), convert);
        let shorter = items.drop_last();
        assert forall|i: int| 0 <= i < items.len() implies convert(#[trigger] items[i]) == Ok::<
            B,
            Seq<char>,
        >(try_all(items, convert)->Ok_0[i]) by {
            if i < shorter.len() {
                assert(shorter[i] == items[i]);
            }
        }
    }
}

/// Elements that convert alike make the same result.
pub proof fn lemma_try_all_same<A, B>(
    a: Seq<A>,
    b: Seq<A>,
    convert: spec_fn(A) -> Result<B, Seq<char>>,
)
    requires
        a.len() == b.len(),
        forall|i: int| 0 <= i < a.len() ==> convert(#[trigger] a[i]) == convert(b[i]),
    ensures
        try_all(a, convert) == try_all(b, convert),
    decreases a.len(),
{
    if a.len() > 0 {
        let x = a.drop_last();
        let y = b.drop_last();
        assert forall|i: int| 0 <= i < x.len() implies convert(#[trigger] x[i]) == convert(y[i]) by {
            assert(x[i] == a[i]);
        }
        lemma_try_all_same(x, y, convert);
        assert(convert(a[a.len() - 1]) == convert(b[a.len() - 1]));
    }
}

/// Where every element converts, the result is what each gave.
pub proof fn lemma_try_all_gives<A, B>(
    items: Seq<A>,
    convert: spec_fn(A) -> Result<B, Seq<char>>,
    results: Seq<B>,
)
    requires
        items.len() == results.len(),
        forall|i: int|
            0 <= i < items.len() ==> convert(#[trigger] items[i]) == Ok::<B, Seq<char>>(results[i]),
    ensures
        try_all(items, convert) == Ok::<Seq<B>, Seq<char>>(results),
    decreases items.len(),
{
    if items.len() > 0 {
        let x = items.drop_last();
        let y = results.drop_last();
        assert forall|i: int| 0 <= i < x.len() implies convert(#[trigger] x[i]) == Ok::<
            B,
            Seq<char>,
        >(y[i]) by {
            assert(x[i] == items[i]);
        }
        lemma_try_all_gives(x, convert, y);
        assert(convert(items[items.len() - 1]) == Ok::<B, Seq<char>>(results[items.len() - 1]));
        assert(y.push(results.last()) =~= results);
    } else {
        assert(results =~= Seq::<B>::empty());
    }
}

/// What is picked from two sequences, one after the other.
pub proof fn lemma_pick_append<A, B>(first: Seq<A>, second: Seq<A>, choice: spec_fn(A) -> Option<B>)
    ensures
        pick(first + second, choice) == pick(first, choice) + pick(second, choice),
    decreases second.len(),
{
    if second.len() == 0 {
        assert(first + second =~= first);
        assert(pick(first, choice) + Seq::<B>::empty() =~= pick(first, choice));
    } else {
        lemma_pick_append(first, second.drop_last(), choice);
        assert((first + second).drop_last() =~= first + second.drop_last());
        assert(pick(first + second, choice) =~= pick(first, choice) + pick(second, choice));
    }
}

/// Two sequences convert one after the other; the first error decides.
pub proof fn lemma_try_all_append<A, B>(
    first: Seq<A>,
    second: Seq<A>,
    convert: spec_fn(A) -> Result<B, Seq<char>>,
)
    ensures
        try_all(first + second, convert) == (match try_all(first, convert) {
            Ok(x) => match try_all(second, convert) {
                Ok(y) => Ok(x + y),
                Err(error) => Err(error),
            },
            Err(error) => Err(error),
        }),
    decreases second.len(),
{
    if second.len() == 0 {
        assert(first + second =~= first);
        if try_all(first, convert) is Ok {
            let x = try_all(first, convert)->Ok_0;
            assert(x + Seq::<B>::empty() =~= x);
        }
    } else {
        lemma_try_all_append(first, second.drop_last(), convert);
        assert((first + second).drop_last() =~= first + second.drop_last());
        if try_all(first, convert) is Ok && try_all(second, convert) is Ok {
            let x = try_all(first, convert)->Ok_0;
            let y = try_all(second, convert)->Ok_0;
            assert((x + y.drop_last()).push(y.last()) =~= x + y);
        }
    }
}

/// The parts of two sequences, one after the other.
pub proof fn lemma_joined_append<A>(first: Seq<Seq<A>>, second: Seq<Seq<A>>)
    ensures
        joined(first + second) == joined(first) + joined(second),
    decreases second.len(),
{
    if second.len() == 0 {
        assert(first + second =~= first);
        assert(joined(first) + Seq::<A>::empty() =~= joined(first));
    } else {
        lemma_joined_append(first, second.drop_last());
        assert((first + second).drop_last() =~= first + second.drop_last());
        assert(joined(first + second) =~= joined(first) + joined(second));
    }
}

/// Single elements join up to the sequence that they are from.
pub proof fn lemma_joined_singles<A>(items: Seq<A>)
    ensures
        joined(items.map_values(|item: A| seq![item])) == items,
    decreases items.len(),
{
    let singles = items.map_values(|item: A| seq![item]);
    if items.len() > 0 {
        let shorter = items.drop_last();
        lemma_joined_singles(shorter);
        assert(singles.drop_last() =~= shorter.map_values(|item: A| seq![item]));
        assert(joined(singles) =~= items);
    } else {
        assert(items =~= Seq::<A>::empty());
    }
}

/// What is in a part is in the whole.
pub proof fn lemma_joined_contains<A>(parts: Seq<Seq<A>>, i: int, item: A)
    requires
        0 <= i < parts.len(),
        parts[i].contains(item),
    ensures
        joined(parts).contains(item),
    decreases parts.len(),
{
    let before = joined(parts.drop_last());
    if i < parts.len() - 1 {
        lemma_joined_contains(parts.drop_last(), i, item);
        let k = choose|k: int| 0 <= k < before.len() && before[k] == item;
        assert(joined(parts)[k] == item);
    } else {
        let k = choose|k: int| 0 <= k < parts[i].len() && parts[i][k] == item;
        assert(joined(parts)[before.len() + k] == item);
    }
}

/// Nothing converts to nothing, and one element to what it gives.
pub proof fn lemma_try_all_one<A, B>(item: A, convert: spec_fn(A) -> Result<B, Seq<char>>)
    ensures
        try_all(Seq::<A>::empty(), convert) == Ok::<Seq<B>, Seq<char>>(Seq::empty()),
        convert(item) matches Ok(given) ==> try_all(seq![item], convert) == Ok::<
            Seq<B>,
            Seq<char>,
        >(seq![given]),
        convert(item) matches Err(error) ==> try_all(seq![item], convert) == Err::<
            Seq<B>,
            Seq<char>,
        >(error),
{
    reveal_with_fuel(try_all, 2);
    assert(seq![item].drop_last() =~= Seq::<A>::empty());
    if convert(item) is Ok {
        assert(Seq::<B>::empty().push(convert(item)->Ok_0) =~= seq![convert(item)->Ok_0]);
    }
}

/// Nothing is picked from nothing, and from one element what the choice gives.
pub proof fn lemma_pick_one<A, B>(item: A, choice: spec_fn(A) -> Option<B>)
    ensures
        pick(Seq::<A>::empty(), choice) == Seq::<B>::empty(),
        choice(item) matches Some(given) ==> pick(seq![item], choice) == seq![given],
        choice(item) is None ==> pick(seq![item], choice) == Seq::<B>::empty(),
{
    reveal_with_fuel(pick, 2);
    assert(seq![item].drop_last() =~= Seq::<A>::empty());
    if choice(item) is Some {
        assert(Seq::<B>::empty().push(choice(item)->Some_0) =~= seq![choice(item)->Some_0]);
    }
}

/// No parts join up to nothing, and one part to itself.
pub proof fn lemma_joined_part<A>(part: Seq<A>)
    ensures
        joined(Seq::<Seq<A>>::empty()) == Seq::<A>::empty(),
        joined(seq![part]) == part,
{
    reveal_with_fuel(joined, 2);
    assert(seq![part].drop_last() =~= Seq::<Seq<A>>::empty());
    assert(Seq::<A>::empty() + part =~= part);
}

} // verus!
