//! What a snapshot holds does not depend on the order in which the entries
//! of an interval came in, nor on the order in which a tally lists its keys.

use crate::address::IpAddress;
use crate::record::{endpoint_of, LogEntryView};
use crate::stats::{watched, StatsCollector, UIUpdate};
use crate::tally::{Tally, TallyKey};
use vstd::prelude::*;

verus! {

/// How many of `items` are wanted.
pub open spec fn occurrences<T>(items: Seq<T>, wanted: spec_fn(T) -> bool) -> nat
    decreases items.len(),
{
    if items.len() == 0 {
        0
    } else {
        occurrences(items.drop_last(), wanted) + if wanted(items.last()) {
            1nat
        } else {
            0nat
        }
    }
}

/// Taking one item out takes one occurrence away if the item was wanted, and
/// none otherwise.
proof fn lemma_occurrences_without<T>(items: Seq<T>, wanted: spec_fn(T) -> bool, at: int)
    requires
        0 <= at < items.len(),
    ensures
        occurrences(items, wanted) == occurrences(items.remove(at), wanted) + if wanted(
            items[at],
        ) {
            1nat
        } else {
            0nat
        },
    decreases items.len(),
{
    if at == items.len() - 1 {
        assert(items.remove(at) =~= items.drop_last());
    } else {
        assert(items.remove(at).drop_last() =~= items.drop_last().remove(at));
        assert(items.remove(at).last() == items.last());
        lemma_occurrences_without(items.drop_last(), wanted, at);
    }
}

/// The same items in another order hold as many wanted ones.
pub proof fn lemma_occurrences_ignore_order<T>(xs: Seq<T>, ys: Seq<T>, wanted: spec_fn(T) -> bool)
    requires
        xs.to_multiset() == ys.to_multiset(),
    ensures
        occurrences(xs, wanted) == occurrences(ys, wanted),
    decreases xs.len(),
{
    broadcast use vstd::multiset::group_multiset_axioms;

    vstd::seq_lib::to_multiset_len(xs);
    vstd::seq_lib::to_multiset_len(ys);
    if xs.len() > 0 {
        let x = xs.last();
        let front = xs.drop_last();
        assert(xs =~= front.push(x));
        vstd::seq_lib::to_multiset_build(front, x);
        vstd::seq_lib::to_multiset_contains(ys, x);
        assert(ys.to_multiset().count(x) > 0);
        let at = choose|at: int| 0 <= at < ys.len() && ys[at] == x;
        vstd::seq_lib::to_multiset_remove(ys, at);
        assert(ys.remove(at).to_multiset() =~= front.to_multiset());
        lemma_occurrences_ignore_order(front, ys.remove(at), wanted);
        lemma_occurrences_without(ys, wanted, at);
    }
}

/// Whether an entry counts for the endpoint `key`.
pub open spec fn hits_endpoint(key: Seq<char>) -> spec_fn(LogEntryView) -> bool {
    |entry: LogEntryView| endpoint_of(entry.request.path) == key
}

/// Whether an entry counts for the address `key`.
pub open spec fn hits_address(key: IpAddress) -> spec_fn(LogEntryView) -> bool {
    |entry: LogEntryView| entry.ip_address == key
}

/// Whether an entry has one of the response codes `codes`.
pub open spec fn hits_codes(codes: Seq<u16>) -> spec_fn(LogEntryView) -> bool {
    |entry: LogEntryView| watched(codes, entry.response_code)
}

/// Whether an entry has one of the response codes `codes` and counts for the
/// response code and endpoint `key`.
pub open spec fn hits_code(codes: Seq<u16>, key: (u16, Seq<char>)) -> spec_fn(LogEntryView) -> bool {
    |entry: LogEntryView|
        watched(codes, entry.response_code) && (
            entry.response_code,
            endpoint_of(entry.request.path),
        ) == key
}

/// The states that the aggregator goes through while it counts `entries`
/// one after the other, from the first state on.
pub open spec fn counts_through(states: Seq<StatsCollector>, entries: Seq<LogEntryView>) -> bool {
    &&& states.len() == entries.len() + 1
    &&& forall|i: int|
        0 <= i < entries.len() ==> states[i + 1].recorded(states[i], #[trigger] entries[i])
}

/// What counting `entries` adds to the state `before`: for every key as
/// many hits as there are entries for it, whatever their order, and nothing
/// to the settings, the alert and its window.
pub open spec fn counted(
    before: StatsCollector,
    after: StatsCollector,
    entries: Seq<LogEntryView>,
) -> bool {
    &&& after.same_settings(before)
    &&& after.window() == before.window()
    &&& after.alert() == before.alert()
    &&& after.start() == before.start()
    &&& after.endpoints().sum() == before.endpoints().sum() + entries.len()
    &&& after.addresses().sum() == before.addresses().sum() + entries.len()
    &&& after.codes().sum() == before.codes().sum() + occurrences(
        entries,
        hits_codes(before.http_codes()),
    )
    &&& forall|key: Seq<char>| #[trigger]
        after.endpoints().count_of(key) == before.endpoints().count_of(key) + occurrences(
            entries,
            hits_endpoint(key),
        )
    &&& forall|key: IpAddress| #[trigger]
        after.addresses().count_of(key) == before.addresses().count_of(key) + occurrences(
            entries,
            hits_address(key),
        )
    &&& forall|key: (u16, Seq<char>)| #[trigger]
        after.codes().count_of(key) == before.codes().count_of(key) + occurrences(
            entries,
            hits_code(before.http_codes(), key),
        )
}

/// Counting entries one after the other adds up.
pub proof fn lemma_counts_add_up(states: Seq<StatsCollector>, entries: Seq<LogEntryView>)
    requires
        counts_through(states, entries),
    ensures
        counted(states[0], states.last(), entries),
    decreases entries.len(),
{
    let before = states[0];
    if entries.len() == 0 {
        assert(states.last() == before);
    } else {
        let n = entries.len() as int;
        let front = entries.drop_last();
        let entry = entries.last();
        let earlier = states.drop_last();
        assert(counts_through(earlier, front)) by {
            assert forall|i: int| 0 <= i < front.len() implies earlier[i + 1].recorded(
                earlier[i],
                #[trigger] front[i],
            ) by {
                assert(states[i + 1].recorded(states[i], entries[i]));
            }
        }
        lemma_counts_add_up(earlier, front);
        let middle = states[n - 1];
        let after = states[n];
        assert(earlier.last() == middle && earlier[0] == before);
        assert(after.recorded(middle, entries[n - 1]));
        let endpoint = endpoint_of(entry.request.path);
        let codes = before.http_codes();
        assert forall|key: Seq<char>| #[trigger]
            after.endpoints().count_of(key) == before.endpoints().count_of(key) + occurrences(
                entries,
                hits_endpoint(key),
            ) by {
            assert(hits_endpoint(key)(entry) == (endpoint == key));
            assert(middle.endpoints().count_of(key) == before.endpoints().count_of(key)
                + occurrences(front, hits_endpoint(key)));
        }
        assert forall|key: IpAddress| #[trigger]
            after.addresses().count_of(key) == before.addresses().count_of(key) + occurrences(
                entries,
                hits_address(key),
            ) by {
            assert(hits_address(key)(entry) == (entry.ip_address == key));
            assert(middle.addresses().count_of(key) == before.addresses().count_of(key)
                + occurrences(front, hits_address(key)));
        }
        assert(hits_codes(codes)(entry) == watched(codes, entry.response_code));
        assert forall|key: (u16, Seq<char>)| #[trigger]
            after.codes().count_of(key) == before.codes().count_of(key) + occurrences(
                entries,
                hits_code(codes, key),
            ) by {
            assert(hits_code(codes, key)(entry) == (watched(codes, entry.response_code) && (
                entry.response_code,
                endpoint,
            ) == key));
            assert(middle.codes().count_of(key) == before.codes().count_of(key) + occurrences(
                front,
                hits_code(codes, key),
            ));
        }
    }
}

/// Whether two tallies count the same: every key has the same hits in both,
/// in whatever order they list their keys.
pub open spec fn agree<K: TallyKey>(a: Tally<K>, b: Tally<K>) -> bool {
    &&& a.sum() == b.sum()
    &&& forall|key: K::V| #[trigger] a.count_of(key) == b.count_of(key)
}

/// Whether two states of the aggregator stand for the same: the same
/// settings, the same alert and window, and tallies that count the same.
pub open spec fn alike(a: StatsCollector, b: StatsCollector) -> bool {
    &&& a.same_settings(b)
    &&& a.window() == b.window()
    &&& a.alert() == b.alert()
    &&& a.start() == b.start()
    &&& agree(a.endpoints(), b.endpoints())
    &&& agree(a.addresses(), b.addresses())
    &&& agree(a.codes(), b.codes())
}

/// Whether two snapshots show the same figures: the same rate, the same
/// state of the alert with the same average, and tallies that count the
/// same. The entries that they show as samples are left aside, since those
/// are the latest ones in the order in which they came.
pub open spec fn same_figures(a: UIUpdate, b: UIUpdate) -> bool {
    &&& a.avg_rate == b.avg_rate
    &&& a.treshold_reached == b.treshold_reached
    &&& a.alert_since == b.alert_since
    &&& a.avg_within_alert_interval == b.avg_within_alert_interval
    &&& agree(a.stats_endpoints, b.stats_endpoints)
    &&& agree(a.stats_addresses, b.stats_addresses)
    &&& agree(a.stats_http_codes, b.stats_http_codes)
}

/// Two runs of an interval that start alike and count the same entries,
/// each in its own order, send snapshots with the same figures when the
/// interval ends at the same time, and are alike again after that. So runs
/// that get the same entries in the same intervals send the same figures
/// interval after interval.
pub proof fn lemma_order_of_records_is_immaterial(
    first: Seq<StatsCollector>,
    xs: Seq<LogEntryView>,
    second: Seq<StatsCollector>,
    ys: Seq<LogEntryView>,
    now: i64,
    first_after: StatsCollector,
    first_update: UIUpdate,
    second_after: StatsCollector,
    second_update: UIUpdate,
)
    requires
        counts_through(first, xs),
        counts_through(second, ys),
        alike(first[0], second[0]),
        xs.to_multiset() == ys.to_multiset(),
        first_after.flushed(first.last(), now, first_update),
        second_after.flushed(second.last(), now, second_update),
    ensures
        same_figures(first_update, second_update),
        alike(first_after, second_after),
{
    lemma_counts_add_up(first, xs);
    lemma_counts_add_up(second, ys);
    vstd::seq_lib::to_multiset_len(xs);
    vstd::seq_lib::to_multiset_len(ys);
    let a = first.last();
    let b = second.last();
    let codes = first[0].http_codes();
    lemma_occurrences_ignore_order(xs, ys, hits_codes(codes));
    assert forall|key: Seq<char>| #[trigger]
        a.endpoints().count_of(key) == b.endpoints().count_of(key) by {
        lemma_occurrences_ignore_order(xs, ys, hits_endpoint(key));
        assert(first[0].endpoints().count_of(key) == second[0].endpoints().count_of(key));
    }
    assert forall|key: IpAddress| #[trigger]
        a.addresses().count_of(key) == b.addresses().count_of(key) by {
        lemma_occurrences_ignore_order(xs, ys, hits_address(key));
        assert(first[0].addresses().count_of(key) == second[0].addresses().count_of(key));
    }
    assert forall|key: (u16, Seq<char>)| #[trigger]
        a.codes().count_of(key) == b.codes().count_of(key) by {
        lemma_occurrences_ignore_order(xs, ys, hits_code(codes, key));
        assert(first[0].codes().count_of(key) == second[0].codes().count_of(key));
    }
    assert(alike(a, b));
    assert(first_after.window() == second_after.window());
    assert(first_after.alert() == second_after.alert());
    assert(first_after.endpoints().items() =~= Seq::<(String, u64)>::empty());
    assert(second_after.endpoints().items() =~= Seq::<(String, u64)>::empty());
    assert(first_after.addresses().items() =~= Seq::<(IpAddress, u64)>::empty());
    assert(second_after.addresses().items() =~= Seq::<(IpAddress, u64)>::empty());
    assert(first_after.codes().items() =~= Seq::<((u16, String), u64)>::empty());
    assert(second_after.codes().items() =~= Seq::<((u16, String), u64)>::empty());
}

} // verus!
