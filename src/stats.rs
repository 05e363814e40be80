//! Summary statistics over a set of contract records.

use vstd::prelude::*;
use crate::models::ContractData;

verus! {

broadcast use vstd::seq_lib::group_to_multiset_ensures;

/// How many records of `s` satisfy `f`.
pub open spec fn count_where(s: Seq<ContractData>, f: spec_fn(ContractData) -> bool) -> nat
    decreases s.len(),
{
    if s.len() == 0 {
        0
    } else {
        count_where(s.drop_last(), f) + if f(s.last()) {
            1nat
        } else {
            0nat
        }
    }
}

pub proof fn lemma_count_where_bound(s: Seq<ContractData>, f: spec_fn(ContractData) -> bool)
    ensures
        count_where(s, f) <= s.len(),
    decreases s.len(),
{
    if s.len() > 0 {
        lemma_count_where_bound(s.drop_last(), f);
    }
}

pub open spec fn has_symbol() -> spec_fn(ContractData) -> bool {
    |c: ContractData| c.symbol is Some
}

pub open spec fn is_proxy_record() -> spec_fn(ContractData) -> bool {
    |c: ContractData| c.is_proxy
}

pub open spec fn has_protocol() -> spec_fn(ContractData) -> bool {
    |c: ContractData| c.protocol is Some
}

pub open spec fn on_chain(id: i32) -> spec_fn(ContractData) -> bool {
    |c: ContractData| c.chain_id == id
}

/// Headline counts over a set of records.
#[derive(Debug, Clone, Copy, PartialEq, Eq)]
pub struct ContractStats {
    pub total: usize,
    pub with_symbol: usize,
    pub proxies: usize,
    pub with_protocol: usize,
}

/// Counts the records, those with a symbol, the proxies and those with a protocol.
pub fn contract_stats(contracts: &Vec<ContractData>) -> (r: ContractStats)
    ensures
        r.total == contracts@.len(),
        r.with_symbol == count_where(contracts@, has_symbol()),
        r.proxies == count_where(contracts@, is_proxy_record()),
        r.with_protocol == count_where(contracts@, has_protocol()),
{
    let mut with_symbol: usize = 0;
    let mut proxies: usize = 0;
    let mut with_protocol: usize = 0;
    let mut i: usize = 0;
    while i < contracts.len()
        invariant
            i <= contracts@.len(),
            with_symbol == count_where(contracts@.subrange(0, i as int), has_symbol()),
            proxies == count_where(contracts@.subrange(0, i as int), is_proxy_record()),
            with_protocol == count_where(contracts@.subrange(0, i as int), has_protocol()),
            with_symbol <= i && proxies <= i && with_protocol <= i,
        decreases contracts@.len() - i,
    {
        let ghost pre = contracts@.subrange(0, i as int);
        assert(contracts@.subrange(0, i + 1).drop_last() =~= pre);
        let c = &contracts[i];
        if c.symbol.is_some() {
            with_symbol = with_symbol + 1;
        }
        if c.is_proxy {
            proxies = proxies + 1;
        }
        if c.protocol.is_some() {
            with_protocol = with_protocol + 1;
        }
        i = i + 1;
    }
    assert(contracts@.subrange(0, contracts@.len() as int) =~= contracts@);
    ContractStats { total: contracts.len(), with_symbol, proxies, with_protocol }
}

/// The number of records on each chain, each chain once.
pub fn chain_counts(contracts: &Vec<ContractData>) -> (r: Vec<(i32, usize)>)
    ensures
        forall|a: int, b: int| 0 <= a < b < r@.len() ==> r@[a].0 != r@[b].0,
        forall|a: int|
            0 <= a < r@.len() ==> (#[trigger] r@[a]).1 == count_where(contracts@, on_chain(r@[a].0))
                && r@[a].1 > 0,
        forall|k: int| #![trigger contracts@[k]]
            0 <= k < contracts@.len() ==> exists|a: int|
                0 <= a < r@.len() && (#[trigger] r@[a]).0 == contracts@[k].chain_id,
{
    let mut r: Vec<(i32, usize)> = Vec::new();
    let mut i: usize = 0;
    while i < contracts.len()
        invariant
            i <= contracts@.len(),
            forall|a: int, b: int| 0 <= a < b < r@.len() ==> r@[a].0 != r@[b].0,
            forall|a: int|
                0 <= a < r@.len() ==> (#[trigger] r@[a]).1 == count_where(
                    contracts@.subrange(0, i as int),
                    on_chain(r@[a].0),
                ) && r@[a].1 > 0,
            forall|k: int| #![trigger contracts@[k]]
                0 <= k < i ==> exists|a: int|
                    0 <= a < r@.len() && (#[trigger] r@[a]).0 == contracts@[k].chain_id,
            forall|id: i32|
                (forall|a: int| 0 <= a < r@.len() ==> (#[trigger] r@[a]).0 != id) ==> count_where(
                    contracts@.subrange(0, i as int),
                    on_chain(id),
                ) == 0,
        decreases contracts@.len() - i,
    {
        let ghost pre = contracts@.subrange(0, i as int);
        let ghost next = contracts@.subrange(0, i + 1);
        assert(next.drop_last() =~= pre);
        assert(next.last() == contracts@[i as int]);
        proof {
            lemma_count_where_bound(pre, on_chain(contracts@[i as int].chain_id));
        }
        let id = contracts[i].chain_id;
        let mut j: usize = 0;
        while j < r.len() && r[j].0 != id
            invariant
                j <= r@.len(),
                forall|a: int| 0 <= a < j ==> (#[trigger] r@[a]).0 != id,
            decreases r@.len() - j,
        {
            j = j + 1;
        }
        let ghost old_r = r@;
        if j < r.len() {
            let cnt = r[j].1;
            r.set(j, (id, cnt + 1));
            assert forall|a: int| 0 <= a < r@.len() implies (#[trigger] r@[a]).1 == count_where(
                next,
                on_chain(r@[a].0),
            ) && r@[a].1 > 0 by {
                if a != j {
                    assert(old_r[a].0 != id);
                }
            }
            assert forall|k: int| #![trigger contracts@[k]] 0 <= k < i + 1 implies exists|a: int|
                0 <= a < r@.len() && (#[trigger] r@[a]).0 == contracts@[k].chain_id by {
                if k < i {
                    let a = choose|a: int| 0 <= a < old_r.len() && (#[trigger] old_r[a]).0 == contracts@[k].chain_id;
                    assert(r@[a].0 == contracts@[k].chain_id);
                } else {
                    assert(r@[j as int].0 == contracts@[k].chain_id);
                }
            }
            assert forall|idx: i32|
                (forall|a: int| 0 <= a < r@.len() ==> (#[trigger] r@[a]).0 != idx) implies count_where(
                next,
                on_chain(idx),
            ) == 0 by {
                assert(r@[j as int].0 != idx);
                assert forall|a: int| 0 <= a < old_r.len() implies (#[trigger] old_r[a]).0 != idx by {
                    assert(r@[a].0 != idx);
                }
            }
        } else {
            r.push((id, 1));
            assert forall|a: int| 0 <= a < r@.len() implies (#[trigger] r@[a]).1 == count_where(
                next,
                on_chain(r@[a].0),
            ) && r@[a].1 > 0 by {
                if a < old_r.len() {
                    assert(old_r[a].0 != id);
                    assert(old_r[a] == r@[a]);
                }
            }
            assert forall|k: int| #![trigger contracts@[k]] 0 <= k < i + 1 implies exists|a: int|
                0 <= a < r@.len() && (#[trigger] r@[a]).0 == contracts@[k].chain_id by {
                if k < i {
                    let a = choose|a: int| 0 <= a < old_r.len() && (#[trigger] old_r[a]).0 == contracts@[k].chain_id;
                    assert(r@[a] == old_r[a]);
                } else {
                    assert(r@[old_r.len() as int].0 == contracts@[k].chain_id);
                }
            }
            assert forall|idx: i32|
                (forall|a: int| 0 <= a < r@.len() ==> (#[trigger] r@[a]).0 != idx) implies count_where(
                next,
                on_chain(idx),
            ) == 0 by {
                assert(r@[old_r.len() as int].0 != idx);
                assert forall|a: int| 0 <= a < old_r.len() implies (#[trigger] old_r[a]).0 != idx by {
                    assert(r@[a] == old_r[a]);
                }
            }
        }
        i = i + 1;
    }
    assert(contracts@.subrange(0, contracts@.len() as int) =~= contracts@);
    r
}


/// Records whose protocol is `p`.
pub open spec fn of_protocol(p: Seq<char>) -> spec_fn(ContractData) -> bool {
    |c: ContractData|
        match c.protocol {
            Some(q) => q@ == p,
            None => false,
        }
}

/// The protocol of a record, if it has one.
pub open spec fn protocol_view(c: ContractData) -> Option<Seq<char>> {
    match c.protocol {
        Some(q) => Some(q@),
        None => None,
    }
}

/// The number of records of each protocol, each protocol once; records
/// without a protocol are not counted.
pub fn protocol_counts(contracts: &Vec<ContractData>) -> (r: Vec<(String, usize)>)
    ensures
        forall|a: int, b: int| 0 <= a < b < r@.len() ==> r@[a].0@ != r@[b].0@,
        forall|a: int|
            0 <= a < r@.len() ==> (#[trigger] r@[a]).1 == count_where(
                contracts@,
                of_protocol(r@[a].0@),
            ) && r@[a].1 > 0,
        forall|k: int| #![trigger contracts@[k]]
            0 <= k < contracts@.len() && contracts@[k].protocol is Some ==> exists|a: int|
                0 <= a < r@.len() && protocol_view(contracts@[k]) == Some((#[trigger] r@[a]).0@),
{
    let mut r: Vec<(String, usize)> = Vec::new();
    let mut i: usize = 0;
    while i < contracts.len()
        invariant
            i <= contracts@.len(),
            forall|a: int, b: int| 0 <= a < b < r@.len() ==> r@[a].0@ != r@[b].0@,
            forall|a: int|
                0 <= a < r@.len() ==> (#[trigger] r@[a]).1 == count_where(
                    contracts@.subrange(0, i as int),
                    of_protocol(r@[a].0@),
                ) && r@[a].1 > 0,
            forall|k: int| #![trigger contracts@[k]]
                0 <= k < i && contracts@[k].protocol is Some ==> exists|a: int|
                    0 <= a < r@.len() && protocol_view(contracts@[k]) == Some((#[trigger] r@[a]).0@),
            forall|p: Seq<char>|
                (forall|a: int| 0 <= a < r@.len() ==> (#[trigger] r@[a]).0@ != p) ==> count_where(
                    contracts@.subrange(0, i as int),
                    of_protocol(p),
                ) == 0,
        decreases contracts@.len() - i,
    {
        let ghost pre = contracts@.subrange(0, i as int);
        let ghost next = contracts@.subrange(0, i + 1);
        assert(next.drop_last() =~= pre);
        assert(next.last() == contracts@[i as int]);
        let ghost old_r = r@;
        match &contracts[i].protocol {
            None => {
                assert forall|k: int| #![trigger contracts@[k]]
                    0 <= k < i + 1 && contracts@[k].protocol is Some implies exists|a: int|
                        0 <= a < r@.len() && protocol_view(contracts@[k]) == Some(
                            (#[trigger] r@[a]).0@,
                        ) by {
                    if k < i {
                    }
                }
            },
            Some(p) => {
                proof {
                    lemma_count_where_bound(pre, of_protocol(p@));
                }
                let mut j: usize = 0;
                while j < r.len() && !r[j].0.eq(p)
                    invariant
                        j <= r@.len(),
                        forall|a: int| 0 <= a < j ==> (#[trigger] r@[a]).0@ != p@,
                    decreases r@.len() - j,
                {
                    j = j + 1;
                }
                if j < r.len() {
                    let cnt = r[j].1;
                    let key = r[j].0.clone();
                    r.set(j, (key, cnt + 1));
                    assert forall|a: int| 0 <= a < r@.len() implies (#[trigger] r@[a]).1
                        == count_where(next, of_protocol(r@[a].0@)) && r@[a].1 > 0 by {
                        if a != j {
                            assert(old_r[a].0@ != p@);
                        }
                    }
                    assert forall|k: int| #![trigger contracts@[k]]
                        0 <= k < i + 1 && contracts@[k].protocol is Some implies exists|a: int|
                            0 <= a < r@.len() && protocol_view(contracts@[k]) == Some(
                                (#[trigger] r@[a]).0@,
                            ) by {
                        if k < i {
                            let a = choose|a: int|
                                0 <= a < old_r.len() && protocol_view(contracts@[k]) == Some(
                                    (#[trigger] old_r[a]).0@,
                                );
                            assert(r@[a].0@ == old_r[a].0@);
                        } else {
                            assert(protocol_view(contracts@[k]) == Some(r@[j as int].0@));
                        }
                    }
                    assert forall|q: Seq<char>|
                        (forall|a: int| 0 <= a < r@.len() ==> (#[trigger] r@[a]).0@ != q) implies count_where(
                        next,
                        of_protocol(q),
                    ) == 0 by {
                        assert(r@[j as int].0@ != q);
                        assert forall|a: int| 0 <= a < old_r.len() implies (#[trigger] old_r[a]).0@
                            != q by {
                            assert(r@[a].0@ != q);
                        }
                    }
                } else {
                    r.push((p.clone(), 1));
                    assert forall|a: int| 0 <= a < r@.len() implies (#[trigger] r@[a]).1
                        == count_where(next, of_protocol(r@[a].0@)) && r@[a].1 > 0 by {
                        if a < old_r.len() {
                            assert(old_r[a].0@ != p@);
                            assert(old_r[a] == r@[a]);
                        }
                    }
                    assert forall|k: int| #![trigger contracts@[k]]
                        0 <= k < i + 1 && contracts@[k].protocol is Some implies exists|a: int|
                            0 <= a < r@.len() && protocol_view(contracts@[k]) == Some(
                                (#[trigger] r@[a]).0@,
                            ) by {
                        if k < i {
                            let a = choose|a: int|
                                0 <= a < old_r.len() && protocol_view(contracts@[k]) == Some(
                                    (#[trigger] old_r[a]).0@,
                                );
                            assert(r@[a] == old_r[a]);
                        } else {
                            assert(protocol_view(contracts@[k]) == Some(
                                r@[old_r.len() as int].0@,
                            ));
                        }
                    }
                    assert forall|q: Seq<char>|
                        (forall|a: int| 0 <= a < r@.len() ==> (#[trigger] r@[a]).0@ != q) implies count_where(
                        next,
                        of_protocol(q),
                    ) == 0 by {
                        assert(r@[old_r.len() as int].0@ != q);
                        assert forall|a: int| 0 <= a < old_r.len() implies (#[trigger] old_r[a]).0@
                            != q by {
                            assert(r@[a] == old_r[a]);
                        }
                    }
                }
            },
        }
        i = i + 1;
    }
    assert(contracts@.subrange(0, contracts@.len() as int) =~= contracts@);
    r
}


/// Relies on `slice::sort_by_key` keyed by `Reverse` of the count: the same
/// entries, largest count first.
#[verifier::external_body]
fn sort_by_count_desc<K>(v: &mut Vec<(K, usize)>)
    ensures
        final(v)@.to_multiset() == old(v)@.to_multiset(),
        forall|a: int, b: int| 0 <= a < b < final(v)@.len() ==> final(v)@[a].1 >= final(v)@[b].1,
{
    v.sort_by_key(|e| std::cmp::Reverse(e.1));
}

/// The number of records on each chain, largest count first.
pub fn chain_breakdown(contracts: &Vec<ContractData>) -> (r: Vec<(i32, usize)>)
    ensures
        forall|a: int, b: int| 0 <= a < b < r@.len() ==> r@[a].0 != r@[b].0,
        forall|a: int, b: int| 0 <= a < b < r@.len() ==> r@[a].1 >= r@[b].1,
        forall|a: int|
            0 <= a < r@.len() ==> (#[trigger] r@[a]).1 == count_where(contracts@, on_chain(r@[a].0))
                && r@[a].1 > 0,
        forall|k: int| #![trigger contracts@[k]]
            0 <= k < contracts@.len() ==> exists|a: int|
                0 <= a < r@.len() && (#[trigger] r@[a]).0 == contracts@[k].chain_id,
{
    let mut r = chain_counts(contracts);
    let ghost groups = r@;
    sort_by_count_desc(&mut r);
    proof {
        assert(groups.no_duplicates());
        groups.lemma_multiset_has_no_duplicates();
        r@.lemma_multiset_has_no_duplicates_conv();
    }
    assert forall|a: int| 0 <= a < r@.len() implies (#[trigger] r@[a]).1 == count_where(
        contracts@,
        on_chain(r@[a].0),
    ) && r@[a].1 > 0 by {
        assert(r@.contains(r@[a]));
        assert(groups.to_multiset().count(r@[a]) > 0);
        let b = choose|b: int| 0 <= b < groups.len() && groups[b] == r@[a];
        assert(groups[b] == r@[a]);
    }
    assert forall|k: int| #![trigger contracts@[k]] 0 <= k < contracts@.len() implies exists|a: int|
        0 <= a < r@.len() && (#[trigger] r@[a]).0 == contracts@[k].chain_id by {
        let b = choose|b: int| 0 <= b < groups.len() && (#[trigger] groups[b]).0 == contracts@[k].chain_id;
        assert(groups.contains(groups[b]));
        assert(r@.to_multiset().count(groups[b]) > 0);
        assert(r@.contains(groups[b]));
        let a = choose|a: int| 0 <= a < r@.len() && r@[a] == groups[b];
        assert(r@[a] == groups[b]);
    }
    r
}

/// The number of records of each protocol, largest count first, each protocol
/// once; records without a protocol are not counted.
pub fn protocol_breakdown(contracts: &Vec<ContractData>) -> (r: Vec<(String, usize)>)
    ensures
        forall|a: int, b: int| 0 <= a < b < r@.len() ==> r@[a].1 >= r@[b].1,
        forall|a: int, b: int| 0 <= a < b < r@.len() ==> r@[a].0@ != r@[b].0@,
        forall|a: int|
            0 <= a < r@.len() ==> (#[trigger] r@[a]).1 == count_where(
                contracts@,
                of_protocol(r@[a].0@),
            ) && r@[a].1 > 0,
        forall|k: int| #![trigger contracts@[k]]
            0 <= k < contracts@.len() && contracts@[k].protocol is Some ==> exists|a: int|
                0 <= a < r@.len() && protocol_view(contracts@[k]) == Some((#[trigger] r@[a]).0@),
{
    let groups = protocol_counts(contracts);
    let mut order: Vec<(usize, usize)> = Vec::new();
    let mut i: usize = 0;
    while i < groups.len()
        invariant
            i <= groups@.len(),
            order@.len() == i,
            forall|k: int| 0 <= k < i ==> #[trigger] order@[k] == (k as usize, groups@[k].1),
        decreases groups@.len() - i,
    {
        order.push((i, groups[i].1));
        i = i + 1;
    }
    let ghost before = order@;
    assert forall|x: int, y: int| 0 <= x < before.len() && 0 <= y < before.len() && x != y implies before[x] != before[y] by {
        assert(before[x].0 == x && before[y].0 == y);
    }
    sort_by_count_desc(&mut order);
    proof {
        assert(before.no_duplicates());
        before.lemma_multiset_has_no_duplicates();
        order@.lemma_multiset_has_no_duplicates_conv();
    }
    assert forall|a: int| 0 <= a < order@.len() implies (#[trigger] order@[a]).0 < groups@.len()
        && order@[a].1 == groups@[order@[a].0 as int].1 by {
        assert(order@.contains(order@[a]));
        assert(before.to_multiset().count(order@[a]) > 0);
        let b = choose|b: int| 0 <= b < before.len() && before[b] == order@[a];
        assert(before[b] == order@[a]);
    }
    let mut r: Vec<(String, usize)> = Vec::new();
    let mut j: usize = 0;
    while j < order.len()
        invariant
            j <= order@.len(),
            r@.len() == j,
            forall|a: int| 0 <= a < order@.len() ==> (#[trigger] order@[a]).0 < groups@.len()
                && order@[a].1 == groups@[order@[a].0 as int].1,
            forall|m: int|
                0 <= m < j ==> (#[trigger] r@[m]).0 == groups@[order@[m].0 as int].0 && r@[m].1
                    == order@[m].1,
        decreases order@.len() - j,
    {
        let (k, c) = order[j];
        let name = groups[k].0.clone();
        r.push((name, c));
        j = j + 1;
    }
    assert forall|a: int, b: int| 0 <= a < b < r@.len() implies r@[a].0@ != r@[b].0@ by {
        assert(r@[a].0 == groups@[order@[a].0 as int].0);
        assert(r@[b].0 == groups@[order@[b].0 as int].0);
        assert(order@[a] != order@[b]);
    }
    assert forall|a: int| 0 <= a < r@.len() implies (#[trigger] r@[a]).1 == count_where(
        contracts@,
        of_protocol(r@[a].0@),
    ) && r@[a].1 > 0 by {
        assert(r@[a].0 == groups@[order@[a].0 as int].0);
    }
    assert forall|k: int| #![trigger contracts@[k]]
        0 <= k < contracts@.len() && contracts@[k].protocol is Some implies exists|a: int|
        0 <= a < r@.len() && protocol_view(contracts@[k]) == Some((#[trigger] r@[a]).0@) by {
        let b = choose|b: int|
            0 <= b < groups@.len() && protocol_view(contracts@[k]) == Some((#[trigger] groups@[b]).0@);
        assert(before[b] == (b as usize, groups@[b].1));
        assert(before.contains(before[b]));
        assert(order@.to_multiset().count(before[b]) > 0);
        assert(order@.contains(before[b]));
        let a = choose|a: int| 0 <= a < order@.len() && order@[a] == before[b];
        assert(r@[a].0 == groups@[order@[a].0 as int].0);
    }
    r
}

} // verus!
