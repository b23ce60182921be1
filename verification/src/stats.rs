//! The aggregator: it counts the entries of one refresh interval, and at
//! each interval boundary it feeds the alert, hands out a snapshot and starts
//! over.

use crate::address::IpAddress;
use crate::alert::{alert_step, max_capacity, window_average, AlertState, AlertWindow};
use crate::record::{endpoint_of, rendering, LogEntry, LogEntryView};
use crate::ring::{pushed, text_items, text_limit, texts_new, texts_pop, texts_push, TextRing};
use crate::tally::{bumped, Tally};
use vstd::prelude::*;

verus! {

/// How many entries a snapshot shows at most.
pub const SAMPLE_LIMIT: usize = 10;

/// The latest entries of one interval as they are written, at most
/// `SAMPLE_LIMIT` of them.
pub struct SampleBuffer {
    buffer: TextRing,
}

impl View for SampleBuffer {
    type V = Seq<Seq<char>>;

    /// The texts that the buffer holds, oldest first.
    closed spec fn view(&self) -> Seq<Seq<char>> {
        text_items(self.buffer)
    }
}

impl SampleBuffer {
    /// The invariant: the buffer holds at most `SAMPLE_LIMIT` texts.
    pub closed spec fn wf(&self) -> bool {
        &&& text_limit(self.buffer) == SAMPLE_LIMIT
        &&& text_items(self.buffer).len() <= SAMPLE_LIMIT
    }

    /// An empty buffer.
    pub fn new() -> (samples: Self)
        ensures
            samples.wf(),
            samples@ == Seq::<Seq<char>>::empty(),
    {
        SampleBuffer { buffer: texts_new(SAMPLE_LIMIT) }
    }

    /// Appends a text; a full buffer loses its oldest text.
    pub fn push(&mut self, text: String)
        requires
            old(self).wf(),
        ensures
            final(self).wf(),
            final(self)@ == pushed(old(self)@, SAMPLE_LIMIT as nat, text@),
    {
        let _ = texts_push(&mut self.buffer, text);
    }

    /// Takes every text out of the buffer, oldest first, and leaves it empty.
    pub fn drain(&mut self) -> (texts: Vec<String>)
        requires
            old(self).wf(),
        ensures
            final(self).wf(),
            final(self)@ == Seq::<Seq<char>>::empty(),
            texts.deep_view() == old(self)@,
    {
        let mut texts: Vec<String> = Vec::new();
        loop
            invariant
                self.wf(),
                texts.deep_view() + self@ == old(self)@,
            ensures
                self.wf(),
                self@.len() == 0,
                texts.deep_view() == old(self)@,
            decreases self@.len(),
        {
            let ghost taken = texts.deep_view();
            let ghost left = self@;
            match texts_pop(&mut self.buffer) {
                Some(text) => {
                    texts.push(text);
                    proof {
                        assert(texts.deep_view() =~= taken.push(left[0]));
                        assert(texts.deep_view() + self@ =~= taken + left);
                    }
                },
                None => {
                    proof {
                        assert(taken + left =~= taken);
                    }
                    break ;
                },
            }
        }
        assert(self@ =~= Seq::<Seq<char>>::empty());
        texts
    }
}

/// One snapshot of the statistics, as the display gets it.
pub struct UIUpdate {
    /// Hits per endpoint in the interval.
    pub stats_endpoints: Tally<String>,
    /// Hits per source address in the interval.
    pub stats_addresses: Tally<IpAddress>,
    /// Hits per watched response code and endpoint in the interval.
    pub stats_http_codes: Tally<(u16, String)>,
    /// Requests per second in the interval, rounded down.
    pub avg_rate: u64,
    /// Whether the alert is firing.
    pub treshold_reached: bool,
    /// When the alert last changed; `None` while it never has.
    pub alert_since: Option<i64>,
    /// The latest entries of the interval as they are written, oldest first.
    pub log_samples: Vec<String>,
    /// The average rate over the alert window when it was last full.
    pub avg_within_alert_interval: u64,
}

/// What the display is told.
pub enum RenderMessage {
    /// A new snapshot to show.
    UI(UIUpdate),
    /// The user asked to leave.
    Exit,
}

/// What the display shows in place of entries before the first snapshot.
pub open spec fn waiting_text() -> Seq<char> {
    "Waiting for data from file-reading thread"@
}

impl Default for UIUpdate {
    /// The snapshot to show before any interval has ended: nothing counted,
    /// the alert resolved, and three lines that say so in place of entries.
    fn default() -> (update: Self)
        ensures
            update.stats_endpoints.wf() && update.stats_endpoints.items().len() == 0,
            update.stats_addresses.wf() && update.stats_addresses.items().len() == 0,
            update.stats_http_codes.wf() && update.stats_http_codes.items().len() == 0,
            update.avg_rate == 0,
            !update.treshold_reached,
            update.alert_since is None,
            update.avg_within_alert_interval == 0,
            update.log_samples.deep_view() == seq![waiting_text(), waiting_text(), waiting_text()],
    {
        let mut log_samples: Vec<String> = Vec::new();
        log_samples.push("Waiting for data from file-reading thread".to_owned());
        log_samples.push("Waiting for data from file-reading thread".to_owned());
        log_samples.push("Waiting for data from file-reading thread".to_owned());
        assert(log_samples.deep_view() =~= seq![waiting_text(), waiting_text(), waiting_text()]);
        UIUpdate {
            stats_endpoints: Tally::new(),
            stats_addresses: Tally::new(),
            stats_http_codes: Tally::new(),
            avg_rate: 0,
            treshold_reached: false,
            alert_since: None,
            log_samples,
            avg_within_alert_interval: 0,
        }
    }
}

/// Why a configuration is refused.
#[derive(Clone, Copy, Debug, PartialEq, Eq, Structural)]
pub enum ConfigError {
    /// The refresh interval is zero.
    ZeroRefreshInterval,
    /// The alert interval is zero.
    ZeroAlertInterval,
    /// The alert threshold is zero.
    ZeroAlertThreshold,
    /// The alert interval spans more refresh intervals than a window can hold.
    AlertIntervalTooLong,
}

/// How many refresh intervals an alert interval spans, the last one counted
/// in full where it is only begun.
pub open spec fn window_capacity(alerting_interval: u64, refresh_interval: u64) -> int {
    if alerting_interval % refresh_interval != 0 {
        alerting_interval / refresh_interval + 1
    } else {
        alerting_interval as int / refresh_interval as int
    }
}

/// The window capacity is the least number of refresh intervals that cover
/// the alert interval.
pub proof fn lemma_window_capacity_covers(alerting_interval: u64, refresh_interval: u64)
    requires
        refresh_interval >= 1,
    ensures
        window_capacity(alerting_interval, refresh_interval) * refresh_interval
            >= alerting_interval,
        (window_capacity(alerting_interval, refresh_interval) - 1) * refresh_interval
            < alerting_interval || alerting_interval == 0,
{
    let a = alerting_interval as int;
    let r = refresh_interval as int;
    assert(a == r * (a / r) + a % r && 0 <= a % r < r) by (nonlinear_arith)
        requires
            r >= 1,
            a >= 0,
    ;
    assert((a / r + 1) * r == (a / r) * r + r) by (nonlinear_arith);
    assert((a / r - 1) * r == (a / r) * r - r) by (nonlinear_arith);
    assert(r * (a / r) == (a / r) * r) by (nonlinear_arith);
}

/// What is wrong with a configuration, if anything; the first fault in the
/// order of `ConfigError` is the one reported.
pub open spec fn config_fault(
    refresh_interval: u64,
    alerting_interval: u64,
    alert_threshold: u64,
) -> Option<ConfigError> {
    if refresh_interval == 0 {
        Some(ConfigError::ZeroRefreshInterval)
    } else if alerting_interval == 0 {
        Some(ConfigError::ZeroAlertInterval)
    } else if alert_threshold == 0 {
        Some(ConfigError::ZeroAlertThreshold)
    } else if window_capacity(alerting_interval, refresh_interval) > max_capacity() {
        Some(ConfigError::AlertIntervalTooLong)
    } else {
        None
    }
}

/// Finds what is wrong with a configuration, if anything, before anything
/// is started with it.
pub fn find_fault(refresh_interval: u64, alerting_interval: u64, alert_threshold: u64) -> (fault:
    Option<ConfigError>)
    ensures
        fault == config_fault(refresh_interval, alerting_interval, alert_threshold),
{
    if refresh_interval == 0 {
        return Some(ConfigError::ZeroRefreshInterval);
    }
    if alerting_interval == 0 {
        return Some(ConfigError::ZeroAlertInterval);
    }
    if alert_threshold == 0 {
        return Some(ConfigError::ZeroAlertThreshold);
    }
    let whole: u64 = alerting_interval / refresh_interval;
    let begun: bool = alerting_interval % refresh_interval != 0;
    let limit: u64 = (usize::MAX / 16) as u64;
    if whole > limit || (begun && whole == limit) {
        return Some(ConfigError::AlertIntervalTooLong);
    }
    None
}

/// Whether `code` is among `codes`.
pub open spec fn watched(codes: Seq<u16>, code: u16) -> bool {
    codes.contains(code)
}

/// The state of the aggregator: the configuration, the counters of the
/// running interval, and the alert, which outlives the intervals.
pub struct StatsCollector {
    refresh_interval: u64,
    alert_threshold: u64,
    http_codes: Vec<u16>,
    stats_endpoints: Tally<String>,
    stats_addresses: Tally<IpAddress>,
    stats_http_codes: Tally<(u16, String)>,
    log_samples: SampleBuffer,
    alerting_buffer: AlertWindow,
    alert: AlertState,
    start: i64,
}

impl StatsCollector {
    /// The length of a refresh interval in seconds.
    pub closed spec fn refresh_interval(&self) -> u64 {
        self.refresh_interval
    }

    /// The average rate from which the alert fires.
    pub closed spec fn alert_threshold(&self) -> u64 {
        self.alert_threshold
    }

    /// The response codes that are counted per endpoint.
    pub closed spec fn http_codes(&self) -> Seq<u16> {
        self.http_codes@
    }

    /// Hits per endpoint in the running interval.
    pub closed spec fn endpoints(&self) -> Tally<String> {
        self.stats_endpoints
    }

    /// Hits per source address in the running interval.
    pub closed spec fn addresses(&self) -> Tally<IpAddress> {
        self.stats_addresses
    }

    /// Hits per watched response code and endpoint in the running interval.
    pub closed spec fn codes(&self) -> Tally<(u16, String)> {
        self.stats_http_codes
    }

    /// The latest entries of the running interval as they are written.
    pub closed spec fn samples(&self) -> Seq<Seq<char>> {
        self.log_samples@
    }

    /// The totals of the latest intervals, oldest first.
    pub closed spec fn window(&self) -> Seq<u64> {
        self.alerting_buffer@
    }

    /// How many totals the alert window holds at most.
    pub closed spec fn capacity(&self) -> nat {
        self.alerting_buffer.capacity()
    }

    /// The state of the alert.
    pub closed spec fn alert(&self) -> AlertState {
        self.alert
    }

    /// When the running interval began, in seconds since the Unix epoch.
    pub closed spec fn start(&self) -> i64 {
        self.start
    }

    /// The entries counted in the running interval.
    pub open spec fn total(&self) -> nat {
        self.endpoints().sum()
    }

    /// The invariant: the configuration is valid, every tally is well formed,
    /// every entry was counted once per endpoint and once per address, and
    /// the samples and the alert window are within their bounds.
    pub closed spec fn wf(&self) -> bool {
        &&& self.refresh_interval >= 1
        &&& self.stats_endpoints.wf()
        &&& self.stats_addresses.wf()
        &&& self.stats_http_codes.wf()
        &&& self.stats_addresses.sum() == self.stats_endpoints.sum()
        &&& self.stats_http_codes.sum() <= self.stats_endpoints.sum()
        &&& self.log_samples.wf()
        &&& self.alerting_buffer.wf()
    }

    /// What the invariant says of the settings and of the alert window: an
    /// interval lasts at least a second, and the window has room for at
    /// least one total and holds no more than its capacity.
    pub proof fn lemma_settings(&self)
        requires
            self.wf(),
        ensures
            self.refresh_interval() >= 1,
            1 <= self.capacity() <= max_capacity(),
            self.window().len() <= self.capacity(),
    {
        self.alerting_buffer.lemma_within_capacity();
    }

    /// Whether the interval that began at `start` is over at `now`.
    pub open spec fn due(&self, now: i64) -> bool {
        now - self.start() >= self.refresh_interval()
    }

    /// An aggregator that starts its first interval at `now`, or the fault
    /// of the configuration: the two intervals and the threshold are
    /// positive, and the window fits in memory.
    pub fn new(
        refresh_interval: u64,
        alerting_interval: u64,
        alert_threshold: u64,
        http_codes: Vec<u16>,
        now: i64,
    ) -> (made: Result<StatsCollector, ConfigError>)
        ensures
            match made {
                Ok(state) => {
                    &&& config_fault(refresh_interval, alerting_interval, alert_threshold) is None
                    &&& state.wf()
                    &&& state.refresh_interval() == refresh_interval
                    &&& state.alert_threshold() == alert_threshold
                    &&& state.http_codes() == http_codes@
                    &&& state.capacity() == window_capacity(alerting_interval, refresh_interval)
                    &&& state.total() == 0
                    &&& state.endpoints().items().len() == 0
                    &&& state.addresses().items().len() == 0
                    &&& state.codes().items().len() == 0
                    &&& state.samples().len() == 0
                    &&& state.window().len() == 0
                    &&& state.alert() == (AlertState { firing: false, since: None, last_average: 0 })
                    &&& state.start() == now
                },
                Err(fault) => config_fault(refresh_interval, alerting_interval, alert_threshold)
                    == Some(fault),
            },
    {
        match find_fault(refresh_interval, alerting_interval, alert_threshold) {
            Some(fault) => {
                return Err(fault);
            },
            None => {},
        }
        let whole: u64 = alerting_interval / refresh_interval;
        let begun: bool = alerting_interval % refresh_interval != 0;
        let max_alerting_buffer_len: usize = if begun {
            (whole + 1) as usize
        } else {
            whole as usize
        };
        proof {
            let a = alerting_interval as int;
            let r = refresh_interval as int;
            assert(a / r >= 1 || a % r != 0) by (nonlinear_arith)
                requires
                    a >= 1,
                    r >= 1,
            ;
        }
        Ok(
            StatsCollector {
                refresh_interval,
                alert_threshold,
                http_codes,
                stats_endpoints: Tally::new(),
                stats_addresses: Tally::new(),
                stats_http_codes: Tally::new(),
                log_samples: SampleBuffer::new(),
                alerting_buffer: AlertWindow::new(max_alerting_buffer_len),
                alert: AlertState::new(),
                start: now,
            },
        )
    }

    /// Whether `code` is one of the response codes that are counted per
    /// endpoint.
    pub fn watches(&self, code: u16) -> (found: bool)
        ensures
            found == watched(self.http_codes(), code),
    {
        let mut i: usize = 0;
        while i < self.http_codes.len()
            invariant
                i <= self.http_codes@.len(),
                forall|j: int| 0 <= j < i ==> self.http_codes@[j] != code,
            decreases self.http_codes@.len() - i,
        {
            if self.http_codes[i] == code {
                return true;
            }
            i += 1;
        }
        false
    }

    /// The entries counted in the running interval.
    pub fn entries_counted(&self) -> (total: u64)
        requires
            self.wf(),
        ensures
            total == self.total(),
    {
        self.stats_endpoints.total()
    }

    /// The state of the alert.
    pub fn alert_state(&self) -> (alert: AlertState)
        ensures
            alert == self.alert(),
    {
        self.alert
    }

    /// How many seconds are left at `now` until the running interval is
    /// over: nothing once it is, and never more than a whole interval.
    pub fn remaining(&self, now: i64) -> (seconds: u64)
        requires
            self.wf(),
        ensures
            self.due(now) ==> seconds == 0,
            !self.due(now) && now >= self.start() ==> seconds == self.refresh_interval() - (now
                - self.start()),
            now < self.start() ==> seconds == self.refresh_interval(),
    {
        let elapsed: i128 = now as i128 - self.start as i128;
        if elapsed >= self.refresh_interval as i128 {
            0
        } else if elapsed <= 0 {
            self.refresh_interval
        } else {
            (self.refresh_interval as i128 - elapsed) as u64
        }
    }

    /// Counts one entry: a hit for its endpoint, a hit for its address, a
    /// hit for its response code and endpoint if the code is watched, and
    /// its text among the samples.
    pub fn record(&mut self, entry: &LogEntry)
        requires
            old(self).wf(),
            old(self).total() < u64::MAX,
        ensures
            final(self).wf(),
            final(self).recorded(*old(self), entry@),
    {
        let endpoint = entry.request.endpoint();
        if self.watches(entry.response_code) {
            self.stats_http_codes.increment((entry.response_code, endpoint.clone()));
        }
        self.stats_endpoints.increment(endpoint);
        self.stats_addresses.increment(entry.ip_address);
        self.log_samples.push(entry.render());
    }

    /// What `record` makes of the state `before` for `entry`.
    pub open spec fn recorded(&self, before: StatsCollector, entry: LogEntryView) -> bool {
        let endpoint = endpoint_of(entry.request.path);
        &&& bumped(before.endpoints(), self.endpoints(), endpoint)
        &&& bumped(before.addresses(), self.addresses(), entry.ip_address)
        &&& if watched(before.http_codes(), entry.response_code) {
            bumped(before.codes(), self.codes(), (entry.response_code, endpoint))
        } else {
            self.codes() == before.codes()
        }
        &&& self.samples() == pushed(before.samples(), SAMPLE_LIMIT as nat, rendering(entry))
        &&& self.same_settings(before)
        &&& self.window() == before.window()
        &&& self.alert() == before.alert()
        &&& self.start() == before.start()
    }

    /// The configuration is that of `before`.
    pub open spec fn same_settings(&self, before: StatsCollector) -> bool {
        &&& self.refresh_interval() == before.refresh_interval()
        &&& self.alert_threshold() == before.alert_threshold()
        &&& self.http_codes() == before.http_codes()
        &&& self.capacity() == before.capacity()
    }

    /// The alert after the boundary at `now`, given the window after the
    /// push: judged by the average once the window is full, left alone
    /// before that.
    pub open spec fn alert_after(&self, window: Seq<u64>, now: i64) -> AlertState {
        if window.len() == self.capacity() {
            alert_step(
                self.alert(),
                window_average(window, self.refresh_interval()) as u64,
                self.alert_threshold(),
                now,
            )
        } else {
            self.alert()
        }
    }

    /// What `flush` makes of the state `before` at `now`, and the snapshot
    /// that it hands out.
    pub open spec fn flushed(&self, before: StatsCollector, now: i64, update: UIUpdate) -> bool {
        let total = before.total();
        &&& self.window() == pushed(before.window(), before.capacity(), total as u64)
        &&& self.alert() == before.alert_after(self.window(), now)
        &&& self.start() == now
        &&& self.same_settings(before)
        &&& self.endpoints().items().len() == 0
        &&& self.addresses().items().len() == 0
        &&& self.codes().items().len() == 0
        &&& self.total() == 0
        &&& self.samples().len() == 0
        &&& update.stats_endpoints == before.endpoints()
        &&& update.stats_addresses == before.addresses()
        &&& update.stats_http_codes == before.codes()
        &&& update.avg_rate == total / before.refresh_interval() as nat
        &&& update.treshold_reached == self.alert().firing
        &&& update.alert_since == self.alert().since
        &&& update.avg_within_alert_interval == self.alert().last_average
        &&& update.log_samples.deep_view() == before.samples()
    }

    /// Ends the running interval at `now`: pushes its total into the alert
    /// window, judges the alert if the window is full, hands out the
    /// snapshot and starts the next interval with empty counters.
    pub fn flush(&mut self, now: i64) -> (update: UIUpdate)
        requires
            old(self).wf(),
        ensures
            final(self).wf(),
            final(self).flushed(*old(self), now, update),
    {
        let total: u64 = self.stats_endpoints.total();
        self.alerting_buffer.push(total);
        match self.alerting_buffer.average(self.refresh_interval) {
            Some(average) => self.alert.observe(average, self.alert_threshold, now),
            None => {},
        }
        let mut stats_endpoints: Tally<String> = Tally::new();
        let mut stats_addresses: Tally<IpAddress> = Tally::new();
        let mut stats_http_codes: Tally<(u16, String)> = Tally::new();
        core::mem::swap(&mut self.stats_endpoints, &mut stats_endpoints);
        core::mem::swap(&mut self.stats_addresses, &mut stats_addresses);
        core::mem::swap(&mut self.stats_http_codes, &mut stats_http_codes);
        let log_samples = self.log_samples.drain();
        self.start = now;
        UIUpdate {
            stats_endpoints,
            stats_addresses,
            stats_http_codes,
            avg_rate: total / self.refresh_interval,
            treshold_reached: self.alert.firing,
            alert_since: self.alert.since,
            log_samples,
            avg_within_alert_interval: self.alert.last_average,
        }
    }

    /// Ends the running interval if it is over at `now`, and does nothing
    /// otherwise.
    pub fn tick(&mut self, now: i64) -> (update: Option<UIUpdate>)
        requires
            old(self).wf(),
        ensures
            final(self).wf(),
            match update {
                Some(update) => old(self).due(now) && final(self).flushed(*old(self), now, update),
                None => !old(self).due(now) && *final(self) == *old(self),
            },
    {
        if now as i128 - self.start as i128 >= self.refresh_interval as i128 {
            Some(self.flush(now))
        } else {
            None
        }
    }
}

/// What a turn without an entry makes of the state `before` at `now`: the
/// snapshot is handed out exactly when the interval is over, and nothing
/// changes otherwise.
pub open spec fn turned(
    before: StatsCollector,
    now: i64,
    after: StatsCollector,
    out: Option<RenderMessage>,
) -> bool {
    if before.due(now) {
        out matches Some(RenderMessage::UI(update)) && after.flushed(before, now, update)
    } else {
        out is None && after == before
    }
}

/// What one turn makes of the state `before`: the entry is counted first, if
/// there is one, and the interval is then ended if it is over.
pub open spec fn collected(
    before: StatsCollector,
    message: Option<LogEntry>,
    now: i64,
    after: StatsCollector,
    out: Option<RenderMessage>,
) -> bool {
    if message is Some {
        exists|counted: StatsCollector| #[trigger]
            counted.recorded(before, message->0@) && turned(counted, now, after, out)
    } else {
        turned(before, now, after, out)
    }
}

/// One turn of the aggregator at time `now`: counts the entry that came in,
/// if one did, and ends the running interval if it is over. The caller waits
/// for an entry no longer than `remaining` says and calls again, whether one
/// came or not; so an interval ends on time also when nothing comes in.
pub fn collect_stats(state: &mut StatsCollector, message: Option<LogEntry>, now: i64) -> (out:
    Option<RenderMessage>)
    requires
        old(state).wf(),
        message is Some ==> old(state).total() < u64::MAX,
    ensures
        final(state).wf(),
        collected(*old(state), message, now, *final(state), out),
{
    match &message {
        Some(entry) => state.record(entry),
        None => {},
    }
    let ghost counted = *state;
    let out = match state.tick(now) {
        Some(update) => Some(RenderMessage::UI(update)),
        None => None,
    };
    proof {
        assert(turned(counted, now, *state, out));
        if message is Some {
            assert(counted.recorded(*old(state), message->0@));
        }
    }
    out
}

} // verus!
