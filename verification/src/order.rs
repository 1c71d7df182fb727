//! Values in the order of their first appearance.

use crate::text::strings;
use vstd::prelude::*;

verus! {

/// The distinct values of `s`, each at the place of its first appearance.
pub open spec fn distinct<T>(s: Seq<T>) -> Seq<T>
    decreases s.len(),
{
    if s.len() == 0 {
        Seq::empty()
    } else {
        let earlier = distinct(s.drop_last());
        if earlier.contains(s.last()) {
            earlier
        } else {
            earlier.push(s.last())
        }
    }
}

/// The distinct values of `s` are the values of `s`, and none of them comes
/// twice.
pub proof fn lemma_distinct<T>(s: Seq<T>)
    ensures
        forall|x: T| distinct(s).contains(x) <==> s.contains(x),
        distinct(s).no_duplicates(),
        distinct(s).len() <= s.len(),
    decreases s.len(),
{
    if s.len() > 0 {
        let earlier = distinct(s.drop_last());
        lemma_distinct(s.drop_last());
        assert forall|x: T| distinct(s).contains(x) <==> s.contains(x) by {
            if s.contains(x) {
                let i = choose|i: int| 0 <= i < s.len() && s[i] == x;
                if i < s.len() - 1 {
                    assert(s.drop_last()[i] == x);
                    assert(s.drop_last().contains(x));
                    assert(earlier.contains(x));
                    let j = choose|j: int| 0 <= j < earlier.len() && earlier[j] == x;
                    assert(distinct(s)[j] == x);
                } else if !earlier.contains(x) {
                    assert(distinct(s)[earlier.len() as int] == x);
                }
            }
            if distinct(s).contains(x) {
                let j = choose|j: int| 0 <= j < distinct(s).len() && distinct(s)[j] == x;
                if j < earlier.len() {
                    assert(earlier[j] == x);
                    assert(earlier.contains(x));
                    assert(s.drop_last().contains(x));
                    let i = choose|i: int| 0 <= i < s.drop_last().len() && s.drop_last()[i] == x;
                    assert(s[i] == x);
                } else {
                    assert(s[s.len() - 1] == x);
                }
            }
        }
    }
}

/// The distinct values come in the order of their first appearance: of two
/// of them, the one that stands first was seen first.
pub proof fn law_distinct_order<T>(s: Seq<T>, i: int, j: int)
    requires
        0 <= i < j < distinct(s).len(),
    ensures
        s.index_of_first(distinct(s)[i]) is Some,
        s.index_of_first(distinct(s)[j]) is Some,
        s.index_of_first(distinct(s)[i])->0 < s.index_of_first(distinct(s)[j])->0,
    decreases s.len(),
{
    let d = distinct(s);
    lemma_distinct(s);
    assert(d.contains(d[i]));
    assert(d.contains(d[j]));
    s.index_of_first_ensures(d[i]);
    s.index_of_first_ensures(d[j]);
    let a = s.index_of_first(d[i])->0;
    let b = s.index_of_first(d[j])->0;
    let earlier = distinct(s.drop_last());
    lemma_distinct(s.drop_last());
    if j < earlier.len() {
        law_distinct_order(s.drop_last(), i, j);
        s.drop_last().index_of_first_ensures(d[i]);
        s.drop_last().index_of_first_ensures(d[j]);
        let a0 = s.drop_last().index_of_first(d[i])->0;
        let b0 = s.drop_last().index_of_first(d[j])->0;
        assert(s[a0] == d[i]);
        assert(s[b0] == d[j]);
        assert(a <= a0) by {
            if a0 < a {
                assert(s[a0] != d[i]);
            }
        }
        assert(a0 <= a) by {
            if a < a0 {
                assert(s.drop_last()[a] != d[i]);
            }
        }
        assert(b <= b0) by {
            if b0 < b {
                assert(s[b0] != d[j]);
            }
        }
        assert(b0 <= b) by {
            if b < b0 {
                assert(s.drop_last()[b] != d[j]);
            }
        }
    } else {
        assert(d[j] == s.last());
        assert(!earlier.contains(d[j]));
        assert(earlier[i] == d[i]);
        assert(earlier.contains(d[i]));
        assert(s.drop_last().contains(d[i]));
        let w = choose|w: int| 0 <= w < s.drop_last().len() && s.drop_last()[w] == d[i];
        assert(s[w] == d[i]);
        assert(a <= w) by {
            if w < a {
                assert(s[w] != d[i]);
            }
        }
        assert(b == s.len() - 1) by {
            if b < s.len() - 1 {
                assert(s.drop_last()[b] == d[j]);
                assert(s.drop_last().contains(d[j]));
            }
        }
    }
}

/// The places at which `wanted` stands in `s`, in ascending order.
pub open spec fn positions_of<T>(s: Seq<T>, wanted: T) -> Seq<usize>
    decreases s.len(),
{
    if s.len() == 0 {
        Seq::empty()
    } else {
        let earlier = positions_of(s.drop_last(), wanted);
        if s.last() == wanted {
            earlier.push((s.len() - 1) as usize)
        } else {
            earlier
        }
    }
}

/// What does not stand in `s` stands at no place of it.
pub proof fn lemma_positions_of_absent<T>(s: Seq<T>, wanted: T)
    requires
        !s.contains(wanted),
    ensures
        positions_of(s, wanted) == Seq::<usize>::empty(),
    decreases s.len(),
{
    if s.len() > 0 {
        assert(s[s.len() - 1] != wanted);
        assert forall|i: int| 0 <= i < s.drop_last().len() implies s.drop_last()[i] != wanted by {
            assert(s[i] == s.drop_last()[i]);
        }
        lemma_positions_of_absent(s.drop_last(), wanted);
    }
}

/// The places of `wanted` are exactly the places at which it stands, each
/// once, in ascending order.
pub proof fn law_positions_of<T>(s: Seq<T>, wanted: T)
    requires
        s.len() <= usize::MAX,
    ensures
        forall|k: int|
            0 <= k < positions_of(s, wanted).len() ==> (#[trigger] positions_of(s, wanted)[k])
                < s.len() && s[positions_of(s, wanted)[k] as int] == wanted,
        forall|k: int, l: int|
            0 <= k < l < positions_of(s, wanted).len() ==> positions_of(s, wanted)[k]
                < positions_of(s, wanted)[l],
        forall|i: int|
            0 <= i < s.len() && s[i] == wanted ==> positions_of(s, wanted).contains(i as usize),
    decreases s.len(),
{
    if s.len() > 0 {
        let earlier = positions_of(s.drop_last(), wanted);
        let all = positions_of(s, wanted);
        law_positions_of(s.drop_last(), wanted);
        assert forall|k: int| 0 <= k < all.len() implies (#[trigger] all[k]) < s.len() && s[all[k] as int]
            == wanted by {
            if k < earlier.len() {
                assert(earlier[k] < s.drop_last().len());
                assert(s.drop_last()[earlier[k] as int] == wanted);
            }
        }
        assert forall|k: int, l: int| 0 <= k < l < all.len() implies all[k] < all[l] by {
            if l < earlier.len() {
                assert(earlier[k] < earlier[l]);
            } else {
                assert(earlier[k] < s.drop_last().len());
            }
        }
        assert forall|i: int| 0 <= i < s.len() && s[i] == wanted implies all.contains(
            i as usize,
        ) by {
            if i < s.len() - 1 {
                assert(s.drop_last()[i] == wanted);
                assert(earlier.contains(i as usize));
                let k = choose|k: int| 0 <= k < earlier.len() && earlier[k] == i as usize;
                assert(all[k] == i as usize);
            } else {
                assert(all[all.len() - 1] == i as usize);
            }
        }
    }
}

/// Where `wanted` stands first among `items`, if it is there.
pub fn position(items: &Vec<String>, wanted: &String) -> (r: Option<usize>)
    ensures
        match r {
            Some(at) => {
                &&& at < items@.len()
                &&& items@[at as int]@ == wanted@
                &&& forall|k: int| 0 <= k < at ==> (#[trigger] items@[k])@ != wanted@
            },
            None => !strings(items@).contains(wanted@),
        },
{
    let mut i: usize = 0;
    while i < items.len()
        invariant
            0 <= i <= items.len(),
            forall|k: int| 0 <= k < i ==> (#[trigger] items@[k])@ != wanted@,
        decreases items.len() - i,
    {
        if items[i] == *wanted {
            return Some(i);
        }
        i += 1;
    }
    proof {
        assert forall|k: int| 0 <= k < strings(items@).len() implies strings(items@)[k]
            != wanted@ by {
            assert(strings(items@)[k] == items@[k]@);
        }
    }
    None
}

} // verus!
