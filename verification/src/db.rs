//! The records that the leak analysis produces and the background work
//! descriptions that it derives from events.
use vstd::prelude::*;

verus! {

/// A piece of device information found in a network flow.
#[derive(Debug, Clone, PartialEq, Eq, Hash)]
pub struct Leak {
    /// the name of the leaked item
    pub leak: String,
    /// whether the flow went from the device to the server
    pub is_send: bool,
    /// whether the item was found only after undoing the app's encryption
    pub is_encrypted: bool,
    pub connection_id: i32,
}

impl View for Leak {
    type V = (Seq<char>, bool, bool, i32);

    open spec fn view(&self) -> (Seq<char>, bool, bool, i32) {
        (self.leak@, self.is_send, self.is_encrypted, self.connection_id)
    }
}

/// The set of leaks that a sequence of leaks holds.
pub open spec fn leak_set(leaks: Seq<Leak>) -> Set<(Seq<char>, bool, bool, i32)> {
    leaks.map_values(|l: Leak| l@).to_set()
}

/// No two leaks of the sequence are the same leak.
pub open spec fn distinct_leaks(leaks: Seq<Leak>) -> bool {
    leaks.map_values(|l: Leak| l@).no_duplicates()
}

/// A network connection and the leaks found in it; `leaks` holds no leak twice.
#[derive(Debug, Clone, PartialEq, Eq)]
pub struct NetworkConnection {
    pub src_addr: String,
    pub destination_addr: Option<String>,
    pub importance: i32,
    pub tid: i32,
    pub pid: i32,
    pub target: Option<String>,
    pub ts: u128,
    pub leaks: Vec<Leak>,
}

#[derive(Debug, Clone, PartialEq, Eq, Hash)]
pub struct BackgroundWork {
    pub class: String,
    pub method: String,
    pub ts: u128,
    pub parent: Option<(String, String)>,
    pub trigger: Option<Trigger>,
}

#[derive(Debug, Clone, PartialEq, Eq, Hash)]
pub struct RuntimeRegisteredReceiver {
    pub class: String,
    pub action: Vec<String>,
    pub parent: Option<(String, String)>,
    pub importance: u64,
}

#[derive(Debug, Clone)]
pub struct WorkInfo {
    pub runtime_registered_receiver: Vec<RuntimeRegisteredReceiver>,
    pub background_work: Vec<BackgroundWork>,
}

/// What started a piece of background work.
#[derive(Debug, Clone, PartialEq, Eq, Hash)]
pub enum Trigger {
    /// a broadcast, and whether its receiver was registered at run time
    BroadcastReceiver(IntentInfo, bool),
    Service(IntentInfo, ServiceMethod),
    Job(JobScheduleInfo),
}

#[derive(Debug, Clone, PartialEq, Eq, Hash)]
pub struct JobScheduleInfo {
    pub id: i64,
    pub time_driven_job: Option<TimeDrivenJob>,
    pub event_driven_job: Option<EventDrivenJob>,
}

/// Scheduling constraints of a time driven background job, in milliseconds.
#[derive(Debug, Clone, Copy, Hash, PartialEq, Eq)]
pub struct TimeDrivenJob {
    /// minimum time to wait before running the job
    pub min_latency_millis: i64,
    /// maximum time to wait before running the job
    pub max_execution_delay_millis: i64,
    /// interval between two runs; zero for a one-shot job
    pub interval_millis: i64,
    pub flex_millis: i64,
    pub initial_backoff_millis: i64,
}

/// The bucket of a delay: up to ten seconds, up to a minute, up to
/// half an hour, or longer (negative delays fall in the last bucket).
pub open spec fn delay_bucket(millis: int) -> int {
    if 0 <= millis <= 10000 {
        0
    } else if 10001 <= millis <= 60000 {
        1
    } else if 60001 <= millis <= 1800000 {
        2
    } else {
        3
    }
}

/// Slots 0..=3 classify one-shot jobs by their minimum latency,
/// slots 4..=7 classify periodic jobs by their interval.
pub open spec fn spec_time_slot(job: TimeDrivenJob) -> int {
    if job.interval_millis == 0 {
        delay_bucket(job.min_latency_millis as int)
    } else {
        4 + delay_bucket(job.interval_millis as int)
    }
}

impl TimeDrivenJob {
    pub fn time_slot(&self) -> (slot: u8)
        ensures
            slot == spec_time_slot(*self),
            slot < 8,
    {
        if self.interval_millis == 0 {
            if 0 <= self.min_latency_millis && self.min_latency_millis <= 10000 {
                0
            } else if 10001 <= self.min_latency_millis && self.min_latency_millis <= 60000 {
                1
            } else if 60001 <= self.min_latency_millis && self.min_latency_millis <= 1800000 {
                2
            } else {
                3
            }
        } else {
            if 0 <= self.interval_millis && self.interval_millis <= 10000 {
                4
            } else if 10001 <= self.interval_millis && self.interval_millis <= 60000 {
                5
            } else if 60001 <= self.interval_millis && self.interval_millis <= 1800000 {
                6
            } else {
                7
            }
        }
    }
}

/// The conditions of an event driven background job.
#[derive(Debug, Clone, PartialEq, Eq, Hash)]
pub struct EventDrivenJob {
    /// network capabilities required to run the job
    pub required_network_capabilities: Vec<i32>,
    /// network transport types required to run the job
    pub required_network_transport_types: Vec<i32>,
    pub is_require_battery_not_low: bool,
    pub is_require_charging: bool,
    pub is_require_device_idle: bool,
    pub is_require_storage_not_low: bool,
    /// maximum delay before running the job
    pub trigger_content_max_delay: i64,
    /// delay before running the job
    pub trigger_content_update_delay: i64,
    pub trigger_content_uris: String,
    pub is_expedited: bool,
    pub is_important_while_foreground: bool,
}

#[derive(Debug, Clone, PartialEq, Eq, Hash)]
pub enum ServiceMethod {
    OnBind(bool),
    OnRebind(bool),
    OnStartCommand(bool),
}

/// The views of a sequence of string pairs.
pub open spec fn pair_views(v: Seq<(String, String)>) -> Seq<(Seq<char>, Seq<char>)> {
    v.map_values(|p: (String, String)| (p.0@, p.1@))
}

/// Whether two sequences of string pairs hold the same pairs in the same order.
pub fn pairs_equal(a: &Vec<(String, String)>, b: &Vec<(String, String)>) -> (r: bool)
    ensures
        r == (pair_views(a@) == pair_views(b@)),
{
    if a.len() != b.len() {
        assert(pair_views(a@).len() != pair_views(b@).len());
        return false;
    }
    let mut i: usize = 0;
    while i < a.len()
        invariant
            a.len() == b.len(),
            i <= a.len(),
            forall|j: int| 0 <= j < i ==> pair_views(a@)[j] == pair_views(b@)[j],
        decreases a.len() - i,
    {
        if a[i].0 != b[i].0 || a[i].1 != b[i].1 {
            assert(pair_views(a@)[i as int] != pair_views(b@)[i as int]);
            return false;
        }
        i = i + 1;
    }
    assert(pair_views(a@) =~= pair_views(b@));
    true
}

/// The description of an intent.
#[derive(Debug, Clone, PartialEq, Eq, Hash)]
pub struct IntentInfo {
    pub action: String,
    pub data: String,
    pub component: String,
    pub extras: Vec<(String, String)>,
    pub intent_package: String,
    pub alarm_info: Option<AlarmInfo>,
}

/// Two intents are the same apart from their alarm.
pub open spec fn same_intent_but_alarm(a: IntentInfo, b: IntentInfo) -> bool {
    &&& a.action@ == b.action@
    &&& a.data@ == b.data@
    &&& a.component@ == b.component@
    &&& pair_views(a.extras@) == pair_views(b.extras@)
    &&& a.intent_package@ == b.intent_package@
}

impl IntentInfo {
    /// Equality of intents that ignores the alarm.
    pub fn eq_no_alarm(&self, intent: &Self) -> (r: bool)
        ensures
            r == same_intent_but_alarm(*self, *intent),
    {
        self.action == intent.action && self.data == intent.data && self.component
            == intent.component && pairs_equal(&self.extras, &intent.extras)
            && self.intent_package == intent.intent_package
    }
}

#[derive(Debug, Clone, Copy, PartialEq, Eq, Hash)]
pub struct AlarmInfo {
    pub trigger_at_millis: i64,
    pub window_millis: i64,
    pub interval_millis: i64,
}

} // verus!
