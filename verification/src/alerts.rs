//! Alert bookkeeping: severities, the per-component cooldown that keeps a
//! component from alerting more than once a minute, the severity filter of
//! the alert tool, and the capped alert history.
use crate::text::{chars_of, string_of};
use vstd::prelude::*;
use vstd::string::*;

verus! {

/// How serious an alert is.
#[derive(Debug, Clone, Copy, PartialEq, Eq, Structural)]
pub enum AlertSeverity {
    Info,
    Warning,
    Critical,
}

impl AlertSeverity {
    /// The name of the severity, in capitals.
    pub open spec fn spec_name(self) -> Seq<char> {
        match self {
            AlertSeverity::Info => "INFO"@,
            AlertSeverity::Warning => "WARNING"@,
            AlertSeverity::Critical => "CRITICAL"@,
        }
    }

    /// The name of the severity, in capitals, as alerts are reported.
    pub fn as_str(&self) -> (s: &'static str)
        ensures
            s@ == self.spec_name(),
    {
        match self {
            AlertSeverity::Info => "INFO",
            AlertSeverity::Warning => "WARNING",
            AlertSeverity::Critical => "CRITICAL",
        }
    }
}

/// Minimum time between two alerts for one component: 60 seconds, in
/// nanoseconds.
pub const ALERT_COOLDOWN_NANOS: i64 = 60_000_000_000;

/// Whether an alert at `now` for a component that last alerted at `last`
/// (both in nanoseconds) falls inside the cooldown.
pub open spec fn in_cooldown(now: i64, last: i64) -> bool {
    now - last < ALERT_COOLDOWN_NANOS
}

/// Whether a request for `component` at `now` lets an alert through, given
/// when each component last alerted: yes unless the component alerted less
/// than the cooldown before.
pub open spec fn alert_fires(times: Map<Seq<char>, i64>, component: Seq<char>, now: i64) -> bool {
    !(times.contains_key(component) && in_cooldown(now, times[component]))
}

/// The last alert times after one request: `now` becomes the component's
/// time when the alert goes through, and nothing changes otherwise.
pub open spec fn after_request(times: Map<Seq<char>, i64>, component: Seq<char>, now: i64) -> Map<
    Seq<char>,
    i64,
> {
    if alert_fires(times, component, now) {
        times.insert(component, now)
    } else {
        times
    }
}

/// The last alert times after a run of requests (component, time), taken in
/// order.
pub open spec fn after_requests(times: Map<Seq<char>, i64>, requests: Seq<(Seq<char>, i64)>) -> Map<
    Seq<char>,
    i64,
>
    decreases requests.len(),
{
    if requests.len() == 0 {
        times
    } else {
        after_requests(
            after_request(times, requests[0].0, requests[0].1),
            requests.drop_first(),
        )
    }
}

/// Whether some request of the run lets an alert for `component` through.
pub open spec fn fires_in(
    times: Map<Seq<char>, i64>,
    requests: Seq<(Seq<char>, i64)>,
    component: Seq<char>,
) -> bool
    decreases requests.len(),
{
    if requests.len() == 0 {
        false
    } else {
        (requests[0].0 == component && alert_fires(times, component, requests[0].1)) || fires_in(
            after_request(times, requests[0].0, requests[0].1),
            requests.drop_first(),
            component,
        )
    }
}

/// When each component last raised an alert.
pub struct AlertCooldown {
    last_alert: Vec<(String, i64)>,
}

impl AlertCooldown {
    /// A component appears at most once.
    #[verifier::type_invariant]
    spec fn inv(self) -> bool {
        forall|i: int, j: int|
            0 <= i < j < self.last_alert@.len() ==> (#[trigger] self.last_alert@[i]).0@
                != (#[trigger] self.last_alert@[j]).0@
    }

    /// Last alert time of each component.
    pub closed spec fn last_alerts(self) -> Map<Seq<char>, i64> {
        Map::new(
            |c: Seq<char>| exists|i: int| 0 <= i < self.last_alert@.len() && (#[trigger] self.last_alert@[i]).0@ == c,
            |c: Seq<char>|
                self.last_alert@[choose|i: int| 0 <= i < self.last_alert@.len() && (#[trigger] self.last_alert@[i]).0@ == c].1,
        )
    }

    /// No component has alerted yet.
    pub fn new() -> (c: AlertCooldown)
        ensures
            c.last_alerts() == Map::<Seq<char>, i64>::empty(),
    {
        let c = AlertCooldown { last_alert: Vec::new() };
        assert(c.last_alerts() =~= Map::<Seq<char>, i64>::empty());
        c
    }

    fn find(&self, component: &str) -> (r: Option<usize>)
        ensures
            match r {
                Some(i) => i < self.last_alert@.len() && self.last_alert@[i as int].0@ == component@,
                None => forall|i: int|
                    0 <= i < self.last_alert@.len() ==> (#[trigger] self.last_alert@[i]).0@ != component@,
            },
    {
        let target = chars_of(component);
        let mut i: usize = 0;
        while i < self.last_alert.len()
            invariant
                i <= self.last_alert@.len(),
                target@ == component@,
                forall|k: int| 0 <= k < i ==> (#[trigger] self.last_alert@[k]).0@ != component@,
            decreases self.last_alert@.len() - i,
        {
            let name = chars_of(self.last_alert[i].0.as_str());
            if crate::text::chars_eq(name.as_slice(), target.as_slice()) {
                return Some(i);
            }
            i = i + 1;
        }
        None
    }

    /// Decides whether `component` may alert at `now` (nanoseconds): not
    /// when its previous alert was less than a minute before. When it may,
    /// `now` becomes its last alert time.
    pub fn should_alert(&mut self, component: &str, now: i64) -> (fire: bool)
        ensures
            fire == alert_fires(old(self).last_alerts(), component@, now),
            final(self).last_alerts() == after_request(old(self).last_alerts(), component@, now),
    {
        proof {
            use_type_invariant(&*self);
        }
        let ghost before = self.last_alerts();
        match self.find(component) {
            Some(i) => {
                let last = self.last_alert[i].1;
                proof {
                    assert(before.contains_key(component@));
                    let j = choose|j: int|
                        0 <= j < self.last_alert@.len() && (#[trigger] self.last_alert@[j]).0@ == component@;
                    assert(j == i as int);
                    assert(before[component@] == last);
                }
                if (now as i128) - (last as i128) < ALERT_COOLDOWN_NANOS as i128 {
                    return false;
                }
                let name = self.last_alert[i].0.clone();
                let ghost old_v = self.last_alert@;
                let mut entries: Vec<(String, i64)> = Vec::new();
                std::mem::swap(&mut entries, &mut self.last_alert);
                entries.set(i, (name, now));
                self.last_alert = entries;
                proof {
                    assert forall|c: Seq<char>| #[trigger] self.last_alerts().contains_key(c) == before.insert(component@, now).contains_key(c) by {
                        if c == component@ {
                            assert(self.last_alert@[i as int].0@ == c);
                        } else if before.contains_key(c) {
                            let k = choose|k: int| 0 <= k < old_v.len() && (#[trigger] old_v[k]).0@ == c;
                            assert(self.last_alert@[k].0@ == c);
                        } else if self.last_alerts().contains_key(c) {
                            let k = choose|k: int| 0 <= k < self.last_alert@.len() && (#[trigger] self.last_alert@[k]).0@ == c;
                            assert(old_v[k].0@ == c);
                        }
                    }
                    assert forall|c: Seq<char>| #[trigger] self.last_alerts().contains_key(c) implies self.last_alerts()[c] == before.insert(component@, now)[c] by {
                        let k = choose|k: int| 0 <= k < self.last_alert@.len() && (#[trigger] self.last_alert@[k]).0@ == c;
                        if c != component@ {
                            let k2 = choose|k2: int| 0 <= k2 < old_v.len() && (#[trigger] old_v[k2]).0@ == c;
                            assert(old_v[k].0@ == c);
                            assert(k == k2);
                        } else {
                            assert(k == i as int);
                        }
                    }
                    assert(self.last_alerts() =~= before.insert(component@, now));
                }
                true
            },
            None => {
                let ghost old_v = self.last_alert@;
                let name = string_of(chars_of(component).as_slice());
                let mut entries: Vec<(String, i64)> = Vec::new();
                std::mem::swap(&mut entries, &mut self.last_alert);
                entries.push((name, now));
                self.last_alert = entries;
                proof {
                    let n = old_v.len() as int;
                    assert(self.last_alert@[n].0@ == component@);
                    assert forall|c: Seq<char>| #[trigger] self.last_alerts().contains_key(c) == before.insert(component@, now).contains_key(c) by {
                        if c != component@ && before.contains_key(c) {
                            let k = choose|k: int| 0 <= k < old_v.len() && (#[trigger] old_v[k]).0@ == c;
                            assert(self.last_alert@[k].0@ == c);
                        } else if c != component@ && self.last_alerts().contains_key(c) {
                            let k = choose|k: int| 0 <= k < self.last_alert@.len() && (#[trigger] self.last_alert@[k]).0@ == c;
                            assert(k < n);
                            assert(old_v[k].0@ == c);
                        }
                    }
                    assert forall|c: Seq<char>| #[trigger] self.last_alerts().contains_key(c) implies self.last_alerts()[c] == before.insert(component@, now)[c] by {
                        let k = choose|k: int| 0 <= k < self.last_alert@.len() && (#[trigger] self.last_alert@[k]).0@ == c;
                        if c != component@ {
                            let k2 = choose|k2: int| 0 <= k2 < old_v.len() && (#[trigger] old_v[k2]).0@ == c;
                            assert(k < n);
                            assert(old_v[k].0@ == c);
                            assert(k == k2);
                        } else {
                            assert(k == n);
                        }
                    }
                    assert(self.last_alerts() =~= before.insert(component@, now));
                }
                true
            },
        }
    }
}

/// Two requests in a row: once `should_alert` has let an alert for
/// component `c` through at `t` (leaving the times `before` with `c` set to
/// `t`), a later request for `c` at `t2` is held back exactly when less
/// than the cooldown has passed since `t`, and requests for any other
/// component are decided as they were before.
pub proof fn lemma_alert_then_quiet(
    before: Map<Seq<char>, i64>,
    c: Seq<char>,
    t: i64,
    t2: i64,
    other: Seq<char>,
)
    requires
        other != c,
    ensures
        ({
            let after = before.insert(c, t);
            &&& (after.contains_key(c) && in_cooldown(t2, after[c])) <==> t2 - t
                < ALERT_COOLDOWN_NANOS
            &&& (after.contains_key(other) && in_cooldown(t2, after[other])) <==> (
            before.contains_key(other) && in_cooldown(t2, before[other]))
        }),
{
}

/// A run of requests in which no alert for `component` goes through leaves
/// that component's last alert time as it was.
proof fn lemma_quiet_run_keeps_time(
    times: Map<Seq<char>, i64>,
    requests: Seq<(Seq<char>, i64)>,
    component: Seq<char>,
)
    requires
        times.contains_key(component),
        !fires_in(times, requests, component),
    ensures
        after_requests(times, requests).contains_key(component),
        after_requests(times, requests)[component] == times[component],
    decreases requests.len(),
{
    if requests.len() > 0 {
        let next = after_request(times, requests[0].0, requests[0].1);
        assert(next.contains_key(component) && next[component] == times[component]);
        lemma_quiet_run_keeps_time(next, requests.drop_first(), component);
    }
}

/// The cooldown over a run of requests: once an alert for `component` has
/// gone through at `t1`, and whatever requests follow (for any components,
/// at any times) let no further alert for it through, a request for it at
/// `t2` lets an alert through exactly when at least the cooldown has passed
/// since `t1`.
pub proof fn lemma_cooldown_after_quiet_run(
    times: Map<Seq<char>, i64>,
    component: Seq<char>,
    t1: i64,
    between: Seq<(Seq<char>, i64)>,
    t2: i64,
)
    requires
        alert_fires(times, component, t1),
        !fires_in(after_request(times, component, t1), between, component),
    ensures
        alert_fires(after_requests(after_request(times, component, t1), between), component, t2)
            <==> t2 - t1 >= ALERT_COOLDOWN_NANOS,
{
    lemma_quiet_run_keeps_time(after_request(times, component, t1), between, component);
}

/// Two requests for one component at one time let at most one alert
/// through: the second never does.
pub proof fn lemma_same_time_once(times: Map<Seq<char>, i64>, component: Seq<char>, now: i64)
    ensures
        !alert_fires(after_request(times, component, now), component, now),
{
}

/// The name of the component a disk's alerts are filed under: `disk:` and
/// its mount point.
pub fn disk_component(mount_point: &str) -> (s: String)
    ensures
        s@ == "disk:"@ + mount_point@,
{
    let mut s = String::from_str("disk:");
    s.append(mount_point);
    s
}

/// `c` with ASCII capitals made small.
pub open spec fn ascii_lower(c: char) -> char {
    if 'A' as u32 <= c as u32 && c as u32 <= 'Z' as u32 {
        ((c as u32) + 32) as char
    } else {
        c
    }
}

/// Whether two strings are equal once ASCII capitals are made small.
pub open spec fn eq_ignore_ascii_case(a: Seq<char>, b: Seq<char>) -> bool {
    a.len() == b.len() && forall|i: int| 0 <= i < a.len() ==> ascii_lower(#[trigger] a[i]) == ascii_lower(b[i])
}

/// Whether an alert of severity `sev` passes the alert tool's filter: no
/// filter passes every alert; otherwise the filter, read without regard to
/// case, must name the severity.
pub open spec fn severity_passes(filter: Option<Seq<char>>, sev: AlertSeverity) -> bool {
    match filter {
        None => true,
        Some(f) => eq_ignore_ascii_case(f, sev.spec_name()),
    }
}

fn lower_exec(c: char) -> (r: u32)
    ensures
        r == ascii_lower(c) as u32,
{
    let u = c as u32;
    if 65 <= u && u <= 90 {
        let l = u + 32;
        assert(((c as u32) + 32) as char as u32 == l) by {
            assert(l <= 122);
        }
        l
    } else {
        u
    }
}

/// Whether an alert of severity `sev` passes the alert tool's filter.
pub fn severity_filter_passes(filter: Option<&str>, sev: AlertSeverity) -> (b: bool)
    ensures
        b == severity_passes(
            match filter {
                Some(f) => Some(f@),
                None => None,
            },
            sev,
        ),
{
    match filter {
        None => true,
        Some(f) => {
            let a = chars_of(f);
            let b = chars_of(sev.as_str());
            if a.len() != b.len() {
                return false;
            }
            let mut i: usize = 0;
            while i < a.len()
                invariant
                    i <= a.len(),
                    a.len() == b.len(),
                    filter == Some(f),
                    a@ == f@,
                    b@ == sev.spec_name(),
                    forall|k: int| 0 <= k < i ==> ascii_lower(#[trigger] a@[k]) == ascii_lower(b@[k]),
                decreases a.len() - i,
            {
                let x = lower_exec(a[i]);
                let y = lower_exec(b[i]);
                if x != y {
                    assert(ascii_lower(a@[i as int]) != ascii_lower(b@[i as int]));
                    assert(!eq_ignore_ascii_case(f@, sev.spec_name()));
                    return false;
                }
                i = i + 1;
            }
            true
        },
    }
}

/// The most alerts the monitor keeps.
pub const MAX_ALERTS: usize = 100;

/// Appends `new` to `items` and keeps only the newest `max` of them, oldest
/// first.
pub fn push_bounded<T>(items: &mut Vec<T>, new: Vec<T>, max: usize)
    ensures
        final(items)@ == crate::series::last_points(old(items)@ + new@, max as int),
{
    let ghost all = old(items)@ + new@;
    let mut new = new;
    items.append(&mut new);
    if items.len() > max {
        let excess = items.len() - max;
        let kept = items.split_off(excess);
        *items = kept;
        assert(items@ =~= crate::series::last_points(all, max as int));
    }
}

/// Minutes until a predicted exhaustion: intervals times the poll period,
/// in whole minutes.
pub fn minutes_until(intervals: u64, poll_secs: u64) -> (m: u64)
    requires
        intervals * poll_secs <= u64::MAX,
    ensures
        m == (intervals * poll_secs) / 60,
{
    (intervals * poll_secs) / 60
}

} // verus!
