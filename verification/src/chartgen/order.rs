use vstd::prelude::*;

use crate::chartgen::charts::Better;

verus! {

/// The rank of a number whose bits, in the binary64 format, are `bits`: by
/// magnitude, where a number with a sign comes below all those without.
pub open spec fn rank(bits: u64) -> int {
    if bits < 0x8000_0000_0000_0000 {
        bits as int
    } else {
        0x7FFF_FFFF_FFFF_FFFF - bits
    }
}

/// Whether the number `a` is strictly better than `b`.
pub open spec fn is_better(a: u64, b: u64, better: Better) -> bool {
    match better {
        Better::Lower => rank(a) < rank(b),
        Better::Higher => rank(a) > rank(b),
    }
}

/// Whether `order` names each place of `keys` once, those of better numbers first
/// and those of equally good ones as they are.
pub open spec fn best_first(keys: Seq<u64>, better: Better, order: Seq<usize>) -> bool {
    &&& order.len() == keys.len()
    &&& forall|i: int| 0 <= i < order.len() ==> #[trigger] order[i] < keys.len()
    &&& forall|i: int, j: int|
        0 <= i < j < order.len() ==> comes_first(
            keys,
            better,
            #[trigger] order[i],
            #[trigger] order[j],
        )
}

/// Whether place `a` comes before place `b`.
pub open spec fn comes_first(keys: Seq<u64>, better: Better, a: usize, b: usize) -> bool {
    ||| is_better(keys[a as int], keys[b as int], better)
    ||| rank(keys[a as int]) == rank(keys[b as int]) && a < b
}

/// The rank of a number goes by its magnitude, upwards without a sign and downwards with
/// one, and every number with a sign is below every one without.
pub proof fn law_ranks(a: u64, b: u64)
    ensures
        a < 0x8000_0000_0000_0000 && b < 0x8000_0000_0000_0000 ==> (rank(a) < rank(b) <==> a < b),
        a >= 0x8000_0000_0000_0000 && b >= 0x8000_0000_0000_0000 ==> (rank(a) < rank(b) <==> a
            > b),
        a >= 0x8000_0000_0000_0000 && b < 0x8000_0000_0000_0000 ==> rank(a) < rank(b),
        rank(a) == rank(b) <==> a == b,
{
}

/// Best first: of two places the one that comes later has no better number, and where
/// their numbers are the same it is the later of the two. Each place occurs once.
pub proof fn law_the_best_come_first(
    keys: Seq<u64>,
    better: Better,
    order: Seq<usize>,
    i: int,
    j: int,
)
    requires
        best_first(keys, better, order),
        0 <= i < j < order.len(),
    ensures
        order.len() == keys.len(),
        order[i] < keys.len() && order[j] < keys.len(),
        order[i] != order[j],
        better is Higher ==> rank(keys[order[i] as int]) >= rank(keys[order[j] as int]),
        better is Lower ==> rank(keys[order[i] as int]) <= rank(keys[order[j] as int]),
        keys[order[i] as int] == keys[order[j] as int] ==> order[i] < order[j],
{
    assert(comes_first(keys, better, order[i], order[j]));
}

/// There is one order of the places of `keys`.
pub proof fn law_the_order_is_unique(
    keys: Seq<u64>,
    better: Better,
    first: Seq<usize>,
    second: Seq<usize>,
)
    requires
        best_first(keys, better, first),
        best_first(keys, better, second),
    ensures
        first == second,
{
    lemma_names_each_place(keys, better, first);
    lemma_names_each_place(keys, better, second);
    assert forall|k: int| 0 <= k <= first.len() implies #[trigger] first.take(k) == second.take(
        k,
    ) by {
        lemma_same_start(keys, better, first, second, k);
    }
    assert(first.take(first.len() as int) =~= first);
    assert(second.take(second.len() as int) =~= second);
}

proof fn lemma_same_start(
    keys: Seq<u64>,
    better: Better,
    first: Seq<usize>,
    second: Seq<usize>,
    k: int,
)
    requires
        best_first(keys, better, first),
        best_first(keys, better, second),
        forall|p: usize| p < keys.len() ==> first.contains(p),
        forall|p: usize| p < keys.len() ==> second.contains(p),
        0 <= k <= first.len(),
    ensures
        first.take(k) == second.take(k),
    decreases k,
{
    if k > 0 {
        lemma_same_start(keys, better, first, second, k - 1);
        let a = first[k - 1];
        let b = second[k - 1];
        assert(second.contains(a));
        assert(first.contains(b));
        let i = choose|i: int| 0 <= i < second.len() && second[i] == a;
        let j = choose|j: int| 0 <= j < first.len() && first[j] == b;
        if i < k - 1 {
            assert(first.take(k - 1)[i] == second.take(k - 1)[i]);
            assert(first[i] == first[k - 1]);
            assert(comes_first(keys, better, first[i], first[k - 1]));
        }
        if j < k - 1 {
            assert(first.take(k - 1)[j] == second.take(k - 1)[j]);
            assert(second[j] == second[k - 1]);
            assert(comes_first(keys, better, second[j], second[k - 1]));
        }
        if a != b {
            assert(comes_first(keys, better, second[k - 1], second[i]));
            assert(comes_first(keys, better, first[k - 1], first[j]));
        }
        assert(first.take(k) =~= first.take(k - 1).push(a));
        assert(second.take(k) =~= second.take(k - 1).push(b));
    }
}

proof fn lemma_names_each_place(keys: Seq<u64>, better: Better, order: Seq<usize>)
    requires
        best_first(keys, better, order),
    ensures
        forall|p: usize| p < keys.len() ==> order.contains(p),
{
    assert(order.no_duplicates()) by {
        assert forall|i: int, j: int|
            0 <= i < order.len() && 0 <= j < order.len() && i != j implies order[i] != order[j] by {
            if i < j {
                assert(comes_first(keys, better, order[i], order[j]));
            } else {
                assert(comes_first(keys, better, order[j], order[i]));
            }
        }
    }
    let named = order.map_values(|p: usize| p as int);
    let places = Set::new(|p: int| 0 <= p < keys.len());
    assert(named.no_duplicates());
    named.unique_seq_to_set();
    vstd::set_lib::lemma_int_range(0, keys.len() as int);
    assert(places =~= vstd::set_lib::set_int_range(0, keys.len() as int));
    assert(named.to_set().subset_of(places)) by {
        assert forall|p: int| named.to_set().contains(p) implies places.contains(p) by {
            let i = choose|i: int| 0 <= i < named.len() && named[i] == p;
            assert(order[i] < keys.len());
        }
    }
    vstd::set_lib::lemma_subset_equality(named.to_set(), places);
    assert forall|p: usize| p < keys.len() implies order.contains(p) by {
        assert(places.contains(p as int));
        let i = choose|i: int| 0 <= i < named.len() && named[i] == p as int;
        assert(order[i] == p);
    }
}

/// The rank of a number whose bits, in the binary64 format, are `bits`.
pub fn rank_of(bits: u64) -> (r: i64)
    ensures
        r == rank(bits),
{
    if bits < 0x8000_0000_0000_0000 {
        bits as i64
    } else {
        -1 - ((bits - 0x8000_0000_0000_0000) as i64)
    }
}

fn beats(a: u64, b: u64, better: Better) -> (r: bool)
    ensures
        r == is_better(a, b, better),
{
    match better {
        Better::Lower => rank_of(a) < rank_of(b),
        Better::Higher => rank_of(a) > rank_of(b),
    }
}

/// The order in which to show the numbers whose bits, in the binary64 format, are
/// `keys`.
pub fn order(keys: &Vec<u64>, better: Better) -> (r: Vec<usize>)
    ensures
        best_first(keys@, better, r@),
{
    let mut r: Vec<usize> = Vec::new();
    let mut i: usize = 0;
    while i < keys.len()
        invariant
            i <= keys@.len(),
            r@.len() == i,
            forall|a: int| 0 <= a < i ==> #[trigger] r@[a] < i,
            forall|a: int, b: int|
                0 <= a < b < i ==> comes_first(
                    keys@,
                    better,
                    #[trigger] r@[a],
                    #[trigger] r@[b],
                ),
        decreases keys@.len() - i,
    {
        let mut p: usize = i;
        while p > 0 && beats(keys[i], keys[r[p - 1]], better)
            invariant
                p <= i,
                i < keys@.len(),
                r@.len() == i,
                forall|a: int| 0 <= a < i ==> #[trigger] r@[a] < i,
                forall|a: int|
                    p <= a < i ==> is_better(keys@[i as int], keys@[#[trigger] r@[a] as int], better),
            decreases p,
        {
            p = p - 1;
        }
        let ghost before = r@;
        r.insert(p, i);
        proof {
            assert forall|a: int, b: int| 0 <= a < b < i + 1 implies comes_first(
                keys@,
                better,
                #[trigger] r@[a],
                #[trigger] r@[b],
            ) by {
                let a0 = if a < p {
                    a
                } else {
                    a - 1
                };
                let b0 = if b < p {
                    b
                } else {
                    b - 1
                };
                if a == p {
                    assert(r@[b] == before[b0]);
                } else if b == p {
                    assert(r@[a] == before[a]);
                    if a < p - 1 {
                        assert(comes_first(keys@, better, before[a], before[p - 1]));
                    }
                } else {
                    assert(r@[a] == before[a0]);
                    assert(r@[b] == before[b0]);
                }
            }
        }
        i = i + 1;
    }
    r
}

/// `items` in the order in which to show them, where the bits of their numbers, in
/// the binary64 format, are `keys`.
pub fn arranged<T>(items: Vec<T>, keys: &Vec<u64>, better: Better) -> (r: Vec<T>)
    requires
        items@.len() == keys@.len(),
    ensures
        exists|o: Seq<usize>|
            {
                &&& #[trigger] best_first(keys@, better, o)
                &&& r@ == o.map_values(|p: usize| items@[p as int])
            },
{
    let ghost all = items@;
    let len: usize = items.len();
    let mut rest = items;
    // The item at place `p` goes to slot `len - 1 - p`.
    let mut slots: Vec<Option<T>> = Vec::new();
    while slots.len() < len
        invariant
            len == all.len(),
            slots@.len() <= len,
            rest@ == all.take(len - slots@.len()),
            forall|j: int| 0 <= j < slots@.len() ==> #[trigger] slots@[j] == Some(all[len - 1 - j]),
        decreases len - slots@.len(),
    {
        let ghost before = rest@;
        let item = rest.pop();
        assert(before.drop_last() =~= all.take(len - slots@.len() - 1));
        slots.push(item);
    }
    let places = order(keys, better);
    let ghost o = places@;
    let mut r: Vec<T> = Vec::new();
    let mut i: usize = 0;
    while i < len
        invariant
            i <= len,
            len == all.len(),
            len == keys@.len(),
            o == places@,
            best_first(keys@, better, o),
            slots@.len() == len,
            r@ == o.take(i as int).map_values(|p: usize| all[p as int]),
            forall|k: int|
                i <= k < len ==> slots@[len - 1 - #[trigger] o[k]] == Some(all[o[k] as int]),
        decreases len - i,
    {
        let p: usize = places[i];
        assert(slots@[len - 1 - o[i as int]] == Some(all[o[i as int] as int]));
        let slot: usize = len - 1 - p;
        proof {
            assert forall|k: int| i < k < len implies #[trigger] o[k] != p by {
                assert(comes_first(keys@, better, o[i as int], o[k]));
            }
        }
        if let Some(item) = slots[slot].take() {
            r.push(item);
            assert(r@ =~= o.take(i + 1).map_values(|p: usize| all[p as int]));
        }
        i = i + 1;
    }
    assert(o.take(len as int) =~= o);
    r
}

/// Numbers that are arranged come out best first, all of them: one after another none is
/// better than the one before it, and each is one of those that went in.
pub proof fn law_arranged_numbers_are_in_order(
    keys: Vec<u64>,
    items: Vec<u64>,
    better: Better,
    r: Vec<u64>,
    i: int,
    j: int,
)
    requires
        items@ == keys@,
        call_ensures(arranged::<u64>, (items, &keys, better), r),
        0 <= i < j < r@.len(),
    ensures
        r@.len() == keys@.len(),
        keys@.contains(r@[i]) && keys@.contains(r@[j]),
        better is Higher ==> rank(r@[i]) >= rank(r@[j]),
        better is Lower ==> rank(r@[i]) <= rank(r@[j]),
{
    let o = choose|o: Seq<usize>|
        {
            &&& #[trigger] best_first(keys@, better, o)
            &&& r@ == o.map_values(|p: usize| items@[p as int])
        };
    law_the_best_come_first(keys@, better, o, i, j);
    assert(r@[i] == keys@[o[i] as int] && r@[j] == keys@[o[j] as int]);
}

/// Items go where their numbers go: where each item tells its number, the items come out
/// with the numbers best first, and items with the same number stay in their order.
pub proof fn law_items_go_with_their_numbers<T>(
    keys: Vec<u64>,
    items: Vec<T>,
    better: Better,
    r: Vec<T>,
    places: Vec<usize>,
    i: int,
)
    requires
        call_ensures(arranged::<T>, (items, &keys, better), r),
        call_ensures(order, (&keys, better), places),
        0 <= i < keys@.len(),
    ensures
        r@.len() == keys@.len(),
        places@.len() == keys@.len(),
        places@[i] < keys@.len(),
        r@[i] == items@[places@[i] as int],
{
    let o = choose|o: Seq<usize>|
        {
            &&& #[trigger] best_first(keys@, better, o)
            &&& r@ == o.map_values(|p: usize| items@[p as int])
        };
    law_the_order_is_unique(keys@, better, o, places@);
    assert(r@[i] == items@[o[i] as int]);
}

} // verus!
