//! Relations between sequences of code units: windows, occurrences and the dictionary order.

use vstd::prelude::*;

verus! {

/// The parts of `units` of length `size`, by the position at which they start.
pub open spec fn windows(units: Seq<u16>, size: int) -> Seq<Seq<u16>> {
    Seq::new(
        if size <= units.len() {
            (units.len() - size + 1) as nat
        } else {
            0
        },
        |i: int| units.subrange(i, i + size),
    )
}

/// Whether `part` stands in `units` at `position`.
pub open spec fn occurs_at(units: Seq<u16>, part: Seq<u16>, position: int) -> bool {
    &&& 0 <= position
    &&& position + part.len() <= units.len()
    &&& units.subrange(position, position + part.len()) == part
}

/// Whether `a` and `b` agree before position `n`, and `a` is over or has the smaller unit there.
pub open spec fn less_at(a: Seq<u16>, b: Seq<u16>, n: int) -> bool {
    &&& 0 <= n <= a.len()
    &&& n < b.len()
    &&& a.take(n) == b.take(n)
    &&& n < a.len() ==> a[n] < b[n]
}

/// Whether `a` comes before `b` in the dictionary order of code units.
pub open spec fn precedes(a: Seq<u16>, b: Seq<u16>) -> bool {
    exists|n: int| less_at(a, b, n)
}

/// No sequence comes before itself.
pub proof fn lemma_precedes_irreflexive(a: Seq<u16>)
    ensures
        !precedes(a, a),
{
}

/// Of two different sequences exactly one comes before the other.
pub proof fn lemma_precedes_total(a: Seq<u16>, b: Seq<u16>)
    ensures
        a != b ==> (precedes(a, b) <==> !precedes(b, a)),
        a == b ==> !precedes(a, b) && !precedes(b, a),
{
    if a != b {
        assert(a.take(0) =~= b.take(0));
        let n = lemma_first_difference(a, b, 0);
        if n < a.len() && n < b.len() {
            if a[n] < b[n] {
                assert(less_at(a, b, n));
            } else {
                assert(less_at(b, a, n));
            }
        } else if n < b.len() {
            assert(less_at(a, b, n));
        } else {
            assert(less_at(b, a, n));
        }
        if precedes(a, b) && precedes(b, a) {
            let i = choose|i: int| less_at(a, b, i);
            let j = choose|j: int| less_at(b, a, j);
            if i < j {
                assert(a.take(j)[i] == b.take(j)[i]);
            } else if j < i {
                assert(a.take(i)[j] == b.take(i)[j]);
            }
        }
    }
}

/// The first position at which two different sequences differ.
proof fn lemma_first_difference(a: Seq<u16>, b: Seq<u16>, from: int) -> (n: int)
    requires
        a != b,
        0 <= from <= a.len(),
        from <= b.len(),
        a.take(from) == b.take(from),
    ensures
        0 <= n <= a.len(),
        n <= b.len(),
        n < a.len() || n < b.len(),
        a.take(n) == b.take(n),
        n < a.len() && n < b.len() ==> a[n] != b[n],
    decreases a.len() - from,
{
    if from < a.len() && from < b.len() {
        if a[from] == b[from] {
            assert(a.take(from + 1) =~= a.take(from).push(a[from]));
            assert(b.take(from + 1) =~= b.take(from).push(b[from]));
            lemma_first_difference(a, b, from + 1)
        } else {
            from
        }
    } else {
        if a.len() == b.len() {
            assert(a =~= a.take(from));
            assert(b =~= b.take(from));
        }
        from
    }
}

/// The dictionary order is transitive.
pub proof fn lemma_precedes_transitive(a: Seq<u16>, b: Seq<u16>, c: Seq<u16>)
    requires
        precedes(a, b),
        precedes(b, c),
    ensures
        precedes(a, c),
{
    let i = choose|i: int| less_at(a, b, i);
    let j = choose|j: int| less_at(b, c, j);
    let n = if i < j {
        i
    } else {
        j
    };
    assert(a.take(n) =~= a.take(i).take(n));
    assert(b.take(n) =~= b.take(i).take(n));
    assert(b.take(n) =~= b.take(j).take(n));
    assert(c.take(n) =~= c.take(j).take(n));
    if i < j {
        assert(b.take(j)[i] == c.take(j)[i]);
    } else if j < i {
        assert(a.take(i)[j] == b.take(i)[j]);
    }
    assert(less_at(a, c, n));
}

/// A part occurs exactly where the window of its length that starts there is the part.
pub proof fn lemma_occurs_in_windows(units: Seq<u16>, part: Seq<u16>, position: int)
    ensures
        occurs_at(units, part, position) <==> 0 <= position < windows(
            units,
            part.len() as int,
        ).len() && windows(units, part.len() as int)[position] == part,
{
}

} // verus!
