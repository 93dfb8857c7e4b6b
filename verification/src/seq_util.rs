//! Small facts about sequences that the loops of this crate lean on.

use vstd::prelude::*;

verus! {

/// Filtering one element more either appends it or changes nothing.
pub proof fn lemma_filter_step<A>(s: Seq<A>, pred: spec_fn(A) -> bool, i: int)
    requires
        0 <= i < s.len(),
    ensures
        s.take(i + 1).filter(pred) == if pred(s[i]) {
            s.take(i).filter(pred).push(s[i])
        } else {
            s.take(i).filter(pred)
        },
        s.take(0).filter(pred) == Seq::<A>::empty(),
{
    reveal(Seq::filter);
    assert(s.take(i + 1).drop_last() =~= s.take(i));
    assert(s.take(0).filter(pred) =~= Seq::<A>::empty());
}

/// Filtering nothing gives nothing, and taking all of a sequence gives it.
pub proof fn lemma_filter_ends<A>(s: Seq<A>, pred: spec_fn(A) -> bool)
    ensures
        s.take(0).filter(pred) == Seq::<A>::empty(),
        s.take(s.len() as int) == s,
{
    reveal(Seq::filter);
    assert(s.take(0).filter(pred) =~= Seq::<A>::empty());
    assert(s.take(s.len() as int) =~= s);
}

/// What a filter keeps satisfies the predicate and came from the sequence,
/// and whatever satisfies the predicate in the sequence is kept.
pub proof fn lemma_filter_members<A>(s: Seq<A>, pred: spec_fn(A) -> bool)
    ensures
        forall|k: int|
            0 <= k < s.filter(pred).len() ==> pred(#[trigger] s.filter(pred)[k]) && s.contains(
                s.filter(pred)[k],
            ),
        forall|i: int| 0 <= i < s.len() && pred(s[i]) ==> s.filter(pred).contains(#[trigger] s[i]),
        s.filter(pred).len() <= s.len(),
{
    let kept = s.filter(pred);
    assert forall|k: int| 0 <= k < kept.len() implies pred(#[trigger] kept[k]) && s.contains(
        kept[k],
    ) by {
        s.lemma_filter_pred(pred, k);
        assert(kept.contains(kept[k]));
        s.lemma_filter_contains_rev(pred, kept[k]);
    }
    assert forall|i: int| 0 <= i < s.len() && pred(s[i]) implies kept.contains(#[trigger] s[i]) by {
        s.lemma_filter_contains(pred, i);
    }
    s.lemma_filter_len(pred);
}

/// The first position whose element satisfies `pred`, or -1.
pub open spec fn first_matching<A>(s: Seq<A>, pred: spec_fn(A) -> bool) -> int
    decreases s.len(),
{
    if s.len() == 0 {
        -1
    } else {
        let p = first_matching(s.drop_last(), pred);
        if p >= 0 {
            p
        } else if pred(s.last()) {
            s.len() - 1
        } else {
            -1
        }
    }
}

/// `first_matching` points at an element that satisfies the predicate,
/// and no element before it does.
pub proof fn lemma_first_matching<A>(s: Seq<A>, pred: spec_fn(A) -> bool)
    ensures
        -1 <= first_matching(s, pred) < s.len(),
        first_matching(s, pred) >= 0 ==> pred(s[first_matching(s, pred)]),
        forall|i: int|
            0 <= i < s.len() && pred(#[trigger] s[i]) ==> 0 <= first_matching(s, pred) <= i,
    decreases s.len(),
{
    if s.len() > 0 {
        lemma_first_matching(s.drop_last(), pred);
        assert forall|i: int| 0 <= i < s.len() && pred(#[trigger] s[i]) implies 0
            <= first_matching(s, pred) <= i by {
            if i < s.len() - 1 {
                assert(s.drop_last()[i] == s[i]);
            }
        }
    }
}

/// Whether `needle` occurs in `hay` at position `at`.
pub open spec fn occurs_at(hay: Seq<u8>, needle: Seq<u8>, at: int) -> bool {
    0 <= at && at + needle.len() <= hay.len() && hay.subrange(at, at + needle.len()) == needle
}

/// Whether `needle` occurs somewhere in `hay`.
pub open spec fn occurs_in(hay: Seq<u8>, needle: Seq<u8>) -> bool {
    exists|at: int| occurs_at(hay, needle, at)
}

/// Whether `needle` occurs somewhere in `hay`.
#[verifier::loop_isolation(false)]
pub fn contains_bytes(hay: &[u8], needle: &[u8]) -> (found: bool)
    ensures
        found == occurs_in(hay@, needle@),
{
    if needle.len() > hay.len() {
        assert(forall|at: int| !occurs_at(hay@, needle@, at));
        return false;
    }
    let last = hay.len() - needle.len();
    let mut at: usize = 0;
    while at <= last
        invariant
            at <= last + 1,
            forall|k: int| 0 <= k < at ==> !occurs_at(hay@, needle@, k),
        decreases last + 1 - at,
    {
        let mut i: usize = 0;
        while i < needle.len() && hay[at + i] == needle[i]
            invariant
                i <= needle@.len(),
                forall|k: int| 0 <= k < i ==> hay@[at + k] == needle@[k],
            decreases needle@.len() - i,
        {
            i += 1;
        }
        if i == needle.len() {
            assert(hay@.subrange(at as int, at + needle@.len()) =~= needle@);
            assert(occurs_at(hay@, needle@, at as int));
            return true;
        }
        proof {
            assert(hay@.subrange(at as int, at + needle@.len())[i as int] == hay@[at + i]);
        }
        at += 1;
    }
    assert(forall|k: int| !occurs_at(hay@, needle@, k));
    false
}

/// The decimal digits of a number as ASCII bytes, without leading zeros.
pub open spec fn decimal_digits(n: nat) -> Seq<u8>
    decreases n,
{
    if n < 10 {
        seq![(48 + n) as u8]
    } else {
        decimal_digits(n / 10).push((48 + n % 10) as u8)
    }
}

/// The decimal digits of a number as ASCII bytes.
#[verifier::loop_isolation(false)]
pub fn to_decimal(n: usize) -> (digits: Vec<u8>)
    ensures
        digits@ == decimal_digits(n as nat),
{
    let mut reversed: Vec<u8> = Vec::new();
    let mut rest = n;
    while rest >= 10
        invariant
            decimal_digits(n as nat) == decimal_digits(rest as nat) + reversed@.reverse(),
        decreases rest,
    {
        let digit = (48 + rest % 10) as u8;
        let ghost before = reversed@;
        reversed.push(digit);
        proof {
            assert(reversed@.reverse() =~= seq![digit] + before.reverse());
            assert(decimal_digits(rest as nat) == decimal_digits((rest / 10) as nat).push(digit));
            assert(decimal_digits((rest / 10) as nat).push(digit) + before.reverse()
                =~= decimal_digits((rest / 10) as nat) + reversed@.reverse());
        }
        rest = rest / 10;
    }
    let first = (48 + rest) as u8;
    let mut digits: Vec<u8> = Vec::new();
    digits.push(first);
    let mut i = reversed.len();
    while i > 0
        invariant
            i <= reversed@.len(),
            digits@ == seq![first] + reversed@.reverse().take(reversed@.len() - i),
        decreases i,
    {
        i -= 1;
        digits.push(reversed[i]);
        proof {
            let r = reversed@.reverse();
            assert(r[reversed@.len() - 1 - i] == reversed@[i as int]);
            assert(digits@ =~= seq![first] + r.take(reversed@.len() - i));
        }
    }
    proof {
        let r = reversed@.reverse();
        assert(r.take(reversed@.len() as int) =~= r);
        assert(decimal_digits(rest as nat) =~= seq![first]);
    }
    digits
}

} // verus!
