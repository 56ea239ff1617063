//! How the proxy resolver turns the answers of its A and AAAA queries into
//! the address list it hands out.

use vstd::prelude::*;

use crate::error::TransportError;
use crate::net::IpAddress;

verus! {

/// The most addresses a resolution hands out.
pub const MAX_RESULTS: usize = 32;

/// `addresses` with every repeated address after its first occurrence
/// left out, in order.
pub open spec fn first_occurrences(addresses: Seq<IpAddress>) -> Seq<IpAddress>
    decreases addresses.len(),
{
    if addresses.len() == 0 {
        Seq::empty()
    } else {
        let earlier = first_occurrences(addresses.drop_last());
        if addresses.drop_last().contains(addresses.last()) {
            earlier
        } else {
            earlier.push(addresses.last())
        }
    }
}

/// An element is in a sequence with one more element pushed exactly when it
/// is that element or was in the sequence.
proof fn lemma_push_contains(items: Seq<IpAddress>, last: IpAddress, item: IpAddress)
    ensures
        items.push(last).contains(item) <==> (items.contains(item) || item == last),
{
    let pushed = items.push(last);
    if items.contains(item) {
        let k = choose|k: int| 0 <= k < items.len() && items[k] == item;
        assert(pushed[k] == item);
    }
    if item == last {
        assert(pushed[items.len() as int] == item);
    }
    if pushed.contains(item) && item != last {
        let k = choose|k: int| 0 <= k < pushed.len() && pushed[k] == item;
        assert(items[k] == item);
    }
}

/// Law: deduplication keeps exactly the addresses given, each once.
pub proof fn lemma_first_occurrences(addresses: Seq<IpAddress>)
    ensures
        forall|address: IpAddress|
            #[trigger] first_occurrences(addresses).contains(address) <==> addresses.contains(address),
        forall|i: int, j: int|
            0 <= i < j < first_occurrences(addresses).len() ==> #[trigger] first_occurrences(
                addresses,
            )[i] != #[trigger] first_occurrences(addresses)[j],
        first_occurrences(addresses).len() <= addresses.len(),
    decreases addresses.len(),
{
    if addresses.len() > 0 {
        let earlier = addresses.drop_last();
        let last = addresses.last();
        lemma_first_occurrences(earlier);
        assert(addresses =~= earlier.push(last));
        let kept = first_occurrences(earlier);
        assert forall|address: IpAddress|
            #[trigger] first_occurrences(addresses).contains(address) <==> addresses.contains(
                address,
            ) by {
            lemma_push_contains(earlier, last, address);
            lemma_push_contains(kept, last, address);
            assert(kept.contains(address) <==> earlier.contains(address));
        }
        if !earlier.contains(last) {
            assert(!kept.contains(last));
            let result = first_occurrences(addresses);
            assert forall|i: int, j: int|
                0 <= i < j < result.len() implies #[trigger] result[i] != #[trigger] result[j] by {
                if j == result.len() - 1 {
                    assert(result[i] == kept[i]);
                    assert(kept.contains(kept[i]));
                } else {
                    assert(result[i] == kept[i]);
                    assert(result[j] == kept[j]);
                }
            }
        }
    }
}

/// Removes repeated addresses, keeping the first of each.
pub fn deduplicate(addresses: &mut Vec<IpAddress>)
    ensures
        final(addresses)@ == first_occurrences(old(addresses)@),
{
    let ghost initial = addresses@;
    let mut kept: Vec<IpAddress> = Vec::new();
    let mut index: usize = 0;
    while index < addresses.len()
        invariant
            index <= addresses@.len(),
            addresses@ == initial,
            kept@ == first_occurrences(initial.take(index as int)),
        decreases addresses@.len() - index,
    {
        let address = addresses[index];
        proof {
            lemma_first_occurrences(initial.take(index as int));
            let prefix = initial.take(index + 1);
            assert(prefix.drop_last() =~= initial.take(index as int));
            assert(prefix.last() == address);
        }
        let mut seen = false;
        let mut position: usize = 0;
        while position < kept.len()
            invariant
                position <= kept@.len(),
                seen == kept@.take(position as int).contains(address),
            decreases kept@.len() - position,
        {
            if kept[position] == address {
                seen = true;
            }
            position = position + 1;
            proof {
                let prefix = kept@.take(position as int);
                assert(prefix.drop_last() =~= kept@.take(position - 1));
                if prefix.contains(address) && !prefix.drop_last().contains(address) {
                    let k = choose|k: int| 0 <= k < prefix.len() && prefix[k] == address;
                    if k < prefix.len() - 1 {
                        assert(prefix.drop_last()[k] == address);
                    }
                }
                if prefix.drop_last().contains(address) {
                    let k = choose|k: int| 0 <= k < prefix.drop_last().len() && prefix.drop_last()[k] == address;
                    assert(prefix[k] == address);
                }
                if kept@[position - 1] == address {
                    assert(prefix[position - 1] == address);
                }
            }
        }
        assert(kept@.take(kept@.len() as int) =~= kept@);
        if !seen {
            kept.push(address);
        }
        index = index + 1;
    }
    assert(initial.take(initial.len() as int) =~= initial);
    *addresses = kept;
}

/// The addresses of both queries, A answers first; when neither query
/// found any, the failure carries the queries' messages joined by `"; "`.
pub open spec fn spec_merged(v4: Result<Vec<IpAddress>, String>, v6: Result<Vec<IpAddress>, String>) -> Seq<IpAddress> {
    (match v4 {
        Ok(values) => values@,
        Err(_) => Seq::empty(),
    }) + (match v6 {
        Ok(values) => values@,
        Err(_) => Seq::empty(),
    })
}

/// The messages of the failed queries, A first.
pub open spec fn failure_messages(v4: Result<Vec<IpAddress>, String>, v6: Result<Vec<IpAddress>, String>) -> Seq<Seq<char>> {
    (match v4 {
        Ok(_) => Seq::empty(),
        Err(message) => seq![message@],
    }) + (match v6 {
        Ok(_) => Seq::empty(),
        Err(message) => seq![message@],
    })
}

/// `parts` joined with `separator` between them.
pub open spec fn spec_join(parts: Seq<Seq<char>>, separator: Seq<char>) -> Seq<char>
    decreases parts.len(),
{
    if parts.len() == 0 {
        Seq::empty()
    } else if parts.len() == 1 {
        parts[0]
    } else {
        spec_join(parts.drop_last(), separator) + separator + parts.last()
    }
}

/// The parts with `"; "` between them.
fn join_messages(parts: &[String]) -> (joined: String)
    ensures
        joined@ == spec_join(parts@.map_values(|part: String| part@), "; "@),
{
    let ghost views = parts@.map_values(|part: String| part@);
    let mut joined = String::new();
    let mut index: usize = 0;
    while index < parts.len()
        invariant
            index <= parts@.len(),
            views == parts@.map_values(|part: String| part@),
            joined@ == spec_join(views.take(index as int), "; "@),
        decreases parts@.len() - index,
    {
        let ghost before = views.take(index as int);
        if index > 0 {
            joined.append("; ");
        }
        joined.append(parts[index].as_str());
        proof {
            let after = views.take(index + 1);
            assert(after.drop_last() =~= before);
            assert(after.last() == parts@[index as int]@);
            if index == 0 {
                assert(before.len() == 0);
                assert(Seq::<char>::empty() + after[0] =~= after[0]);
            }
        }
        index = index + 1;
    }
    assert(views.take(parts@.len() as int) =~= views);
    joined
}

/// Merges the answers of a resolution's A and AAAA queries.
pub fn merge_query_results(v4: Result<Vec<IpAddress>, String>, v6: Result<Vec<IpAddress>, String>) -> (merged:
    Result<Vec<IpAddress>, TransportError>)
    ensures
        spec_merged(v4, v6).len() > 0 ==> (merged matches Ok(addresses) && addresses@ == spec_merged(
            v4,
            v6,
        )),
        spec_merged(v4, v6).len() == 0 ==> (merged matches Err(TransportError::Dns(message))
            && message@ == spec_join(failure_messages(v4, v6), "; "@)),
{
    let ghost merged_view = spec_merged(v4, v6);
    let ghost messages = failure_messages(v4, v6);
    let mut addresses: Vec<IpAddress> = Vec::new();
    let mut errors: Vec<String> = Vec::new();
    match v4 {
        Ok(mut values) => addresses.append(&mut values),
        Err(error) => errors.push(error),
    }
    match v6 {
        Ok(mut values) => addresses.append(&mut values),
        Err(error) => errors.push(error),
    }
    assert(addresses@ =~= merged_view);
    assert(errors@.map_values(|part: String| part@) =~= messages);
    if addresses.len() == 0 {
        return Err(TransportError::Dns(join_messages(errors.as_slice())));
    }
    Ok(addresses)
}

/// The address list a resolution hands out: deduplicated, at most
/// `MAX_RESULTS` of them, and an error when none is left.
pub fn finish_resolution(addresses: Vec<IpAddress>) -> (result: Result<Vec<IpAddress>, TransportError>)
    ensures
        first_occurrences(addresses@).len() == 0 ==> (result matches Err(TransportError::Dns(_))),
        first_occurrences(addresses@).len() > 0 ==> (result matches Ok(list) && list@ == if first_occurrences(
            addresses@,
        ).len() <= MAX_RESULTS {
            first_occurrences(addresses@)
        } else {
            first_occurrences(addresses@).take(MAX_RESULTS as int)
        }),
{
    let mut addresses = addresses;
    deduplicate(&mut addresses);
    if addresses.len() == 0 {
        return Err(TransportError::Dns(String::from_str("no usable A or AAAA records were returned")));
    }
    addresses.truncate(MAX_RESULTS);
    Ok(addresses)
}

} // verus!
