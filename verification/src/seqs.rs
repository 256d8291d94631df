//! Sequences: the contents of their elements, steps that may fail, and
//! elements without their repetitions.

use vstd::prelude::*;

verus! {

/// The contents of a sequence of values, one by one.
pub open spec fn views<T: View>(items: Seq<T>) -> Seq<T::V> {
    items.map_values(|x: T| x@)
}

/// Every step succeeded: `outputs` holds, place by place, what `step`
/// makes of `inputs`.
pub open spec fn all_done<A, B, E>(
    inputs: Seq<A>,
    outputs: Seq<B>,
    step: spec_fn(A) -> Result<B, E>,
) -> bool {
    &&& outputs.len() == inputs.len()
    &&& forall|i: int| 0 <= i < inputs.len() ==> step(#[trigger] inputs[i]) == Ok::<B, E>(outputs[i])
}

/// `e` is the failure of the first input on which `step` fails.
pub open spec fn first_failure<A, B, E>(inputs: Seq<A>, e: E, step: spec_fn(A) -> Result<B, E>) -> bool {
    exists|i: int|
        {
            &&& 0 <= i < inputs.len()
            &&& step(#[trigger] inputs[i]) == Err::<B, E>(e)
            &&& forall|j: int| 0 <= j < i ==> step(#[trigger] inputs[j]) is Ok
        }
}

/// What `step` makes of `inputs`, one by one; the first failure is the
/// failure of the whole.
pub open spec fn try_map<A, B, E>(inputs: Seq<A>, step: spec_fn(A) -> Result<B, E>) -> Result<
    Seq<B>,
    E,
>
    decreases inputs.len(),
{
    if inputs.len() == 0 {
        Ok(Seq::empty())
    } else {
        match try_map(inputs.drop_last(), step) {
            Err(e) => Err(e),
            Ok(init) => match step(inputs.last()) {
                Err(e) => Err(e),
                Ok(b) => Ok(init.push(b)),
            },
        }
    }
}

/// Where every step succeeded, the whole is what the steps made.
pub proof fn lemma_try_map_done<A, B, E>(
    inputs: Seq<A>,
    outputs: Seq<B>,
    step: spec_fn(A) -> Result<B, E>,
)
    requires
        all_done(inputs, outputs, step),
    ensures
        try_map(inputs, step) == Ok::<Seq<B>, E>(outputs),
    decreases inputs.len(),
{
    if inputs.len() == 0 {
        assert(outputs =~= Seq::<B>::empty());
    } else {
        let init = inputs.drop_last();
        assert forall|i: int| 0 <= i < init.len() implies step(#[trigger] init[i]) == Ok::<B, E>(
            outputs.drop_last()[i],
        ) by {
            assert(step(inputs[i]) == Ok::<B, E>(outputs[i]));
        }
        lemma_try_map_done(init, outputs.drop_last(), step);
        assert(step(inputs[inputs.len() - 1]) == Ok::<B, E>(outputs[inputs.len() - 1]));
        assert(outputs.drop_last().push(outputs.last()) =~= outputs);
    }
}

/// A whole that succeeds holds, place by place, what the steps made.
pub proof fn lemma_try_map_ok<A, B, E>(inputs: Seq<A>, step: spec_fn(A) -> Result<B, E>)
    requires
        try_map(inputs, step) is Ok,
    ensures
        all_done(inputs, try_map(inputs, step)->Ok_0, step),
    decreases inputs.len(),
{
    if inputs.len() > 0 {
        let init = inputs.drop_last();
        lemma_try_map_ok(init, step);
        let outputs = try_map(inputs, step)->Ok_0;
        let before = try_map(init, step)->Ok_0;
        assert forall|i: int| 0 <= i < inputs.len() implies step(#[trigger] inputs[i]) == Ok::<B, E>(
            outputs[i],
        ) by {
            if i < init.len() {
                assert(step(init[i]) == Ok::<B, E>(before[i]));
            }
        }
    }
}

/// A failure among the first inputs is the failure of the whole.
pub proof fn lemma_try_map_fails<A, B, E>(inputs: Seq<A>, step: spec_fn(A) -> Result<B, E>, n: int)
    requires
        0 <= n <= inputs.len(),
        try_map(inputs.take(n), step) is Err,
    ensures
        try_map(inputs, step) == try_map(inputs.take(n), step),
    decreases inputs.len() - n,
{
    if n == inputs.len() {
        assert(inputs.take(n) =~= inputs);
    } else {
        assert(inputs.take(n + 1).drop_last() =~= inputs.take(n));
        lemma_try_map_fails(inputs, step, n + 1);
    }
}

/// The failure of the first input on which a step fails is the failure of
/// the whole.
pub proof fn lemma_try_map_failure<A, B, E>(inputs: Seq<A>, e: E, step: spec_fn(A) -> Result<B, E>)
    requires
        first_failure(inputs, e, step),
    ensures
        try_map(inputs, step) == Err::<Seq<B>, E>(e),
{
    let i = choose|i: int|
        {
            &&& 0 <= i < inputs.len()
            &&& step(#[trigger] inputs[i]) == Err::<B, E>(e)
            &&& forall|j: int| 0 <= j < i ==> step(#[trigger] inputs[j]) is Ok
        };
    let head = inputs.take(i);
    let made = head.map_values(|a: A| step(a)->Ok_0);
    assert forall|j: int| 0 <= j < head.len() implies step(#[trigger] head[j]) == Ok::<B, E>(
        made[j],
    ) by {
        assert(step(inputs[j]) is Ok);
    }
    lemma_try_map_done(head, made, step);
    assert(inputs.take(i + 1).drop_last() =~= head);
    assert(inputs.take(i + 1).last() == inputs[i]);
    lemma_try_map_fails(inputs, step, i + 1);
}

/// What is picked from the first elements is the first of what is picked
/// from all.
pub proof fn lemma_filter_map_prefix<A, B>(s: Seq<A>, f: spec_fn(A) -> Option<B>, n: int)
    requires
        0 <= n <= s.len(),
    ensures
        s.take(n).filter_map(f).len() <= s.filter_map(f).len(),
        s.filter_map(f).take(s.take(n).filter_map(f).len() as int) == s.take(n).filter_map(f),
    decreases s.len() - n,
{
    if n == s.len() {
        assert(s.take(n) =~= s);
        assert(s.filter_map(f).take(s.filter_map(f).len() as int) =~= s.filter_map(f));
    } else {
        lemma_filter_map_prefix(s, f, n + 1);
        s.lemma_filter_map_take_succ(f, n);
        let part = s.take(n).filter_map(f);
        let more = s.take(n + 1).filter_map(f);
        assert(s.filter_map(f).take(part.len() as int) =~= more.take(part.len() as int));
        assert(more.take(part.len() as int) =~= part);
    }
}

/// `s` without the repetitions: each element where it first occurs.
pub open spec fn distinct<T>(s: Seq<T>) -> Seq<T>
    decreases s.len(),
{
    if s.len() == 0 {
        s
    } else {
        let init = distinct(s.drop_last());
        if init.contains(s.last()) {
            init
        } else {
            init.push(s.last())
        }
    }
}

/// How often `t` occurs in `s`.
pub open spec fn occurrences<T>(s: Seq<T>, t: T) -> nat
    decreases s.len(),
{
    if s.len() == 0 {
        0
    } else {
        occurrences(s.drop_last(), t) + if s.last() == t {
            1nat
        } else {
            0nat
        }
    }
}

/// The distinct elements are those that occur, each once.
pub proof fn lemma_distinct<T>(s: Seq<T>)
    ensures
        distinct(s).no_duplicates(),
        forall|t: T| #[trigger] distinct(s).contains(t) <==> s.contains(t),
        forall|t: T| !s.contains(t) ==> #[trigger] occurrences(s, t) == 0,
        forall|t: T| s.contains(t) ==> #[trigger] occurrences(s, t) > 0,
    decreases s.len(),
{
    if s.len() > 0 {
        let init = s.drop_last();
        lemma_distinct(init);
        let d = distinct(init);
        assert forall|t: T| #[trigger] distinct(s).contains(t) <==> s.contains(t) by {
            if s.contains(t) {
                let k = choose|k: int| 0 <= k < s.len() && s[k] == t;
                if k < init.len() {
                    assert(init[k] == t);
                    assert(init.contains(t));
                    assert(d.contains(t));
                    let m = choose|m: int| 0 <= m < d.len() && d[m] == t;
                    assert(distinct(s)[m] == t);
                } else {
                    if d.contains(t) {
                        let m = choose|m: int| 0 <= m < d.len() && d[m] == t;
                        assert(distinct(s)[m] == t);
                    } else {
                        assert(distinct(s)[d.len() as int] == t);
                    }
                }
            }
            if distinct(s).contains(t) {
                let m = choose|m: int| 0 <= m < distinct(s).len() && distinct(s)[m] == t;
                if m < d.len() {
                    assert(d[m] == t);
                    assert(d.contains(t));
                    assert(init.contains(t));
                    let k = choose|k: int| 0 <= k < init.len() && init[k] == t;
                    assert(s[k] == t);
                } else {
                    assert(s[s.len() - 1] == t);
                }
            }
        }
        assert forall|t: T| !s.contains(t) implies #[trigger] occurrences(s, t) == 0 by {
            assert(s[s.len() - 1] != t);
            if init.contains(t) {
                let k = choose|k: int| 0 <= k < init.len() && init[k] == t;
                assert(s[k] == t);
            }
            assert(occurrences(init, t) == 0);
        }
        assert forall|t: T| s.contains(t) implies #[trigger] occurrences(s, t) > 0 by {
            let k = choose|k: int| 0 <= k < s.len() && s[k] == t;
            if k < init.len() {
                assert(init[k] == t);
                assert(init.contains(t));
                assert(occurrences(init, t) > 0);
            }
        }
        assert(distinct(s).no_duplicates()) by {
            if !d.contains(s.last()) {
                assert forall|i: int, j: int|
                    0 <= i < distinct(s).len() && 0 <= j < distinct(s).len() && i
                        != j implies distinct(s)[i] != distinct(s)[j] by {
                    if i < d.len() {
                        assert(d.contains(d[i]));
                    }
                    if j < d.len() {
                        assert(d.contains(d[j]));
                    }
                }
            }
        }
    }
}

/// Whether `t` is among the texts `items`.
pub fn holds_text(items: &Vec<String>, t: &String) -> (r: bool)
    ensures
        r == views(items@).contains(t@),
{
    let mut i: usize = 0;
    while i < items.len()
        invariant
            i <= items.len(),
            forall|j: int| 0 <= j < i ==> views(items@)[j] != t@,
        decreases items.len() - i,
    {
        if items[i] == *t {
            assert(views(items@)[i as int] == t@);
            return true;
        }
        i = i + 1;
    }
    false
}

} // verus!
