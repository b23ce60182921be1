//! What a display needs of a snapshot: the lines that tell the state of the
//! alert, the order in which counted keys are listed, and the share of the
//! width that each table of a response code gets.

use crate::alert::AlertState;
use crate::text::{decimal, push_numeral, push_text, text_of};
use crate::timestamp::{clock, clock_of};
use vstd::prelude::*;

verus! {

/// The colour in which the state of the alert is shown.
#[derive(Clone, Copy, Debug, PartialEq, Eq, Structural)]
pub enum Tone {
    /// The alert has not changed since start.
    White,
    /// The alert is firing.
    Red,
    /// The alert is resolved.
    Green,
}

/// The colour in which `state` is shown.
pub open spec fn tone_of(state: AlertState) -> Tone {
    if state.since is None {
        Tone::White
    } else if state.firing {
        Tone::Red
    } else {
        Tone::Green
    }
}

/// When `state` last changed, as a time of day; nothing while it never has.
pub open spec fn change_time(state: AlertState) -> Seq<char> {
    match state.since {
        None => Seq::empty(),
        Some(since) => clock_of(since),
    }
}

/// The lines that tell `state`: that the alert fires, since when and at
/// which average rate; or that it is resolved, and since when.
pub open spec fn alert_text(state: AlertState) -> Seq<Seq<char>> {
    if state.firing {
        seq![
            "State: Firing"@,
            "Firing since: "@ + change_time(state),
            "Avg rate: "@ + decimal(state.last_average as nat),
        ]
    } else {
        seq!["State: Resolved"@, "\nResolved at: "@ + change_time(state)]
    }
}

/// The lines that are shown for `state`: those that tell it once it has
/// changed, and before that one line that says that it never has.
pub open spec fn shown_text(state: AlertState) -> Seq<Seq<char>> {
    if state.since is None {
        seq!["Alert didn't happen to fire since start"@]
    } else {
        alert_text(state)
    }
}

/// A label followed by a text.
fn labelled(label: &str, text: &str) -> (line: String)
    ensures
        line@ == label@ + text@,
{
    let mut out: Vec<char> = Vec::new();
    push_text(&mut out, label);
    push_text(&mut out, text);
    assert(out@ =~= label@ + text@);
    text_of(out.as_slice())
}

impl AlertState {
    /// The colour in which the state is shown.
    pub fn tone(&self) -> (tone: Tone)
        ensures
            tone == tone_of(*self),
    {
        if self.since.is_none() {
            Tone::White
        } else if self.firing {
            Tone::Red
        } else {
            Tone::Green
        }
    }

    /// When the state last changed, as a time of day; nothing while it
    /// never has.
    pub fn change_time(&self) -> (time: String)
        ensures
            time@ == change_time(*self),
    {
        match self.since {
            None => String::new(),
            Some(since) => clock(since),
        }
    }

    /// The lines that tell the state.
    pub fn to_lines(&self) -> (lines: Vec<String>)
        ensures
            lines.deep_view() == alert_text(*self),
    {
        let mut lines: Vec<String> = Vec::new();
        let time = self.change_time();
        if self.firing {
            let mut rate: Vec<char> = Vec::new();
            push_text(&mut rate, "Avg rate: ");
            push_numeral(&mut rate, self.last_average as u128, false);
            lines.push("State: Firing".to_owned());
            lines.push(labelled("Firing since: ", time.as_str()));
            lines.push(text_of(rate.as_slice()));
        } else {
            lines.push("State: Resolved".to_owned());
            lines.push(labelled("\nResolved at: ", time.as_str()));
        }
        assert(lines.deep_view() =~= alert_text(*self));
        lines
    }

    /// The lines that are shown for the state.
    pub fn shown_lines(&self) -> (lines: Vec<String>)
        ensures
            lines.deep_view() == shown_text(*self),
    {
        if self.since.is_none() {
            let mut lines: Vec<String> = Vec::new();
            lines.push("Alert didn't happen to fire since start".to_owned());
            assert(lines.deep_view() =~= shown_text(*self));
            lines
        } else {
            self.to_lines()
        }
    }
}

/// Whether the entry at `a` is listed before the entry at `b`: the one with
/// more hits first, and of two with the same hits the one that was seen
/// first.
pub open spec fn listed_before<K>(entries: Seq<(K, u64)>, a: int, b: int) -> bool {
    entries[a].1 > entries[b].1 || (entries[a].1 == entries[b].1 && a < b)
}

/// Whether `order` lists each of the first `count` entries once, every
/// entry before those that it is listed before.
pub open spec fn ranks<K>(entries: Seq<(K, u64)>, order: Seq<usize>, count: int) -> bool {
    &&& order.len() == count
    &&& forall|i: int| 0 <= i < order.len() ==> 0 <= #[trigger] order[i] < count
    &&& forall|i: int, j: int|
        0 <= i < j < order.len() ==> listed_before(
            entries,
            #[trigger] order[i] as int,
            #[trigger] order[j] as int,
        )
}

/// An order that lists entries by `listed_before` lists none twice, so it
/// lists each of them once.
pub proof fn lemma_ranks_once<K>(entries: Seq<(K, u64)>, order: Seq<usize>, count: int)
    requires
        ranks(entries, order, count),
    ensures
        forall|i: int, j: int| 0 <= i < j < order.len() ==> order[i] != order[j],
{
    assert forall|i: int, j: int| 0 <= i < j < order.len() implies order[i] != order[j] by {
        assert(listed_before(entries, order[i] as int, order[j] as int));
    }
}

/// The order in which entries are listed: by hits, the most first, and
/// entries with the same hits in the order in which they stand.
pub fn ranking<K>(entries: &Vec<(K, u64)>) -> (order: Vec<usize>)
    ensures
        ranks(entries@, order@, entries@.len() as int),
{
    let mut order: Vec<usize> = Vec::new();
    let mut next: usize = 0;
    while next < entries.len()
        invariant
            next <= entries@.len(),
            ranks(entries@, order@, next as int),
        decreases entries@.len() - next,
    {
        let hits = entries[next].1;
        let mut at: usize = 0;
        while at < order.len() && entries[order[at]].1 >= hits
            invariant
                next < entries@.len(),
                hits == entries@[next as int].1,
                ranks(entries@, order@, next as int),
                at <= order@.len(),
                forall|i: int| 0 <= i < at ==> entries@[order@[i] as int].1 >= hits,
            decreases order@.len() - at,
        {
            at += 1;
        }
        let ghost before = order@;
        order.insert(at, next);
        proof {
            let after = order@;
            assert(after == before.insert(at as int, next));
            assert forall|j: int| at <= j < before.len() implies entries@[before[j] as int].1
                < hits by {
                if j > at {
                    assert(listed_before(entries@, before[at as int] as int, before[j] as int));
                }
            }
            assert forall|i: int, j: int| 0 <= i < j < after.len() implies listed_before(
                entries@,
                #[trigger] after[i] as int,
                #[trigger] after[j] as int,
            ) by {
                if j == at {
                    assert(after[i] == before[i]);
                } else if i == at {
                    assert(after[j] == before[j - 1]);
                } else {
                    let a = if i < at {
                        i
                    } else {
                        i - 1
                    };
                    let b = if j < at {
                        j
                    } else {
                        j - 1
                    };
                    assert(after[i] == before[a] && after[j] == before[b]);
                    assert(listed_before(entries@, before[a] as int, before[b] as int));
                }
            }
            assert forall|i: int| 0 <= i < after.len() implies 0 <= #[trigger] after[i] < next
                + 1 by {
                if i < at {
                    assert(after[i] == before[i]);
                } else if i > at {
                    assert(after[i] == before[i - 1]);
                }
            }
        }
        next += 1;
    }
    order
}

/// Whether `codes` are in rising order, none twice.
pub open spec fn rising(codes: Seq<u16>) -> bool {
    forall|i: int, j: int| 0 <= i < j < codes.len() ==> codes[i] < codes[j]
}

/// The response codes that `entries` hold, each once, in rising order.
pub fn codes_seen(entries: &Vec<((u16, String), u64)>) -> (codes: Vec<u16>)
    ensures
        rising(codes@),
        forall|code: u16|
            codes@.contains(code) <==> exists|i: int|
                0 <= i < entries@.len() && (#[trigger] entries@[i]).0.0 == code,
{
    let mut codes: Vec<u16> = Vec::new();
    let mut next: usize = 0;
    while next < entries.len()
        invariant
            next <= entries@.len(),
            rising(codes@),
            forall|code: u16|
                codes@.contains(code) <==> exists|i: int|
                    0 <= i < next && (#[trigger] entries@[i]).0.0 == code,
        decreases entries@.len() - next,
    {
        let code = entries[next].0.0;
        let mut at: usize = 0;
        while at < codes.len() && codes[at] < code
            invariant
                rising(codes@),
                at <= codes@.len(),
                forall|i: int| 0 <= i < at ==> codes@[i] < code,
            decreases codes@.len() - at,
        {
            at += 1;
        }
        let ghost before = codes@;
        if at < codes.len() && codes[at] == code {
            proof {
                assert(before.contains(code));
                assert forall|other: u16|
                    before.contains(other) <==> exists|i: int|
                        0 <= i < next + 1 && (#[trigger] entries@[i]).0.0 == other by {
                    if exists|i: int| 0 <= i < next + 1 && (#[trigger] entries@[i]).0.0 == other {
                        let i = choose|i: int|
                            0 <= i < next + 1 && (#[trigger] entries@[i]).0.0 == other;
                        if i == next {
                            assert(other == code);
                        }
                    }
                    if before.contains(other) {
                        let i = choose|i: int|
                            0 <= i < next && (#[trigger] entries@[i]).0.0 == other;
                        assert(0 <= i < next + 1 && entries@[i].0.0 == other);
                    }
                }
            }
        } else {
            codes.insert(at, code);
            proof {
                let after = codes@;
                assert(after == before.insert(at as int, code));
                assert forall|i: int, j: int| 0 <= i < j < after.len() implies after[i]
                    < after[j] by {
                    let a = if i < at {
                        i
                    } else {
                        i - 1
                    };
                    let b = if j < at {
                        j
                    } else {
                        j - 1
                    };
                    if j == at {
                        assert(after[i] == before[i]);
                    } else if i == at {
                        assert(after[j] == before[j - 1]);
                        assert(before[at as int] <= before[j - 1]) by {
                            if j - 1 > at {
                                assert(before[at as int] < before[j - 1]);
                            }
                        }
                    } else {
                        assert(after[i] == before[a] && after[j] == before[b]);
                    }
                }
                assert forall|other: u16|
                    after.contains(other) <==> exists|i: int|
                        0 <= i < next + 1 && (#[trigger] entries@[i]).0.0 == other by {
                    if after.contains(other) {
                        let k = choose|k: int| 0 <= k < after.len() && after[k] == other;
                        if k == at {
                            assert(entries@[next as int].0.0 == other);
                        } else {
                            let b = if k < at {
                                k
                            } else {
                                k - 1
                            };
                            assert(before[b] == other);
                            assert(before.contains(other));
                            let i = choose|i: int|
                                0 <= i < next && (#[trigger] entries@[i]).0.0 == other;
                            assert(0 <= i < next + 1 && entries@[i].0.0 == other);
                        }
                    }
                    if exists|i: int| 0 <= i < next + 1 && (#[trigger] entries@[i]).0.0 == other {
                        let i = choose|i: int|
                            0 <= i < next + 1 && (#[trigger] entries@[i]).0.0 == other;
                        if i == next {
                            assert(after[at as int] == other);
                        } else {
                            assert(before.contains(other));
                            let k = choose|k: int| 0 <= k < before.len() && before[k] == other;
                            let b = if k < at {
                                k
                            } else {
                                k + 1
                            };
                            assert(after[b] == other);
                        }
                    }
                }
            }
        }
        next += 1;
    }
    codes
}

/// Whether the entry at a given index counts the response code `code`.
pub open spec fn counts_code(entries: Seq<((u16, String), u64)>, code: u16) -> spec_fn(
    usize,
) -> bool {
    |at: usize| at < entries.len() && entries[at as int].0.0 == code
}

/// The entries of `order` that count the response code `code`, in the order
/// in which `order` has them.
pub open spec fn of_code(entries: Seq<((u16, String), u64)>, order: Seq<usize>, code: u16) -> Seq<
    usize,
> {
    order.filter(counts_code(entries, code))
}

/// Picks from `order` the entries that count the response code `code`.
pub fn rows_of_code(entries: &Vec<((u16, String), u64)>, order: &Vec<usize>, code: u16) -> (rows:
    Vec<usize>)
    ensures
        rows@ == of_code(entries@, order@, code),
{
    let ghost keep = counts_code(entries@, code);
    let mut rows: Vec<usize> = Vec::new();
    let mut i: usize = 0;
    while i < order.len()
        invariant
            i <= order@.len(),
            keep == counts_code(entries@, code),
            rows@ == order@.take(i as int).filter(keep),
        decreases order@.len() - i,
    {
        let at = order[i];
        proof {
            assert(order@.take(i + 1).drop_last() =~= order@.take(i as int));
            reveal(Seq::filter);
        }
        if at < entries.len() && entries[at].0.0 == code {
            rows.push(at);
        }
        i += 1;
    }
    proof {
        assert(order@.take(i as int) =~= order@);
    }
    rows
}

/// The share of the width, in percent, that each of `tables` tables gets
/// when they stand side by side: all of it where there is none.
pub fn column_share(tables: usize) -> (percent: u16)
    ensures
        percent == 100int / (if tables == 0 { 1int } else { tables as int }),
{
    if tables == 0 {
        100
    } else if tables > 100 {
        assert(100int / (tables as int) == 0) by (nonlinear_arith)
            requires
                tables > 100,
        ;
        0
    } else {
        (100 / tables) as u16
    }
}

} // verus!
