//! The event queue: every notification is stored once under its event key,
//! claimed for delivery when due, retried with growing delays after failures,
//! and kept as history once sent, failed or suppressed.

use vstd::prelude::*;
use crate::notification::Notification;
use crate::text::{owned, same_text, take_chars, take_spec};

verus! {

#[derive(PartialEq, Eq, Structural, Clone, Copy, Debug)]
pub enum EventStatus {
    Queued,
    Sending,
    Retrying,
    Sent,
    Failed,
    Suppressed,
}

pub open spec fn status_text(s: EventStatus) -> Seq<char> {
    match s {
        EventStatus::Queued => "queued"@,
        EventStatus::Sending => "sending"@,
        EventStatus::Retrying => "retrying"@,
        EventStatus::Sent => "sent"@,
        EventStatus::Failed => "failed"@,
        EventStatus::Suppressed => "suppressed"@,
    }
}

/// The status that a stored status text stands for; unknown texts read as
/// queued.
pub open spec fn parse_status_spec(t: Seq<char>) -> EventStatus {
    if t == "sending"@ {
        EventStatus::Sending
    } else if t == "retrying"@ {
        EventStatus::Retrying
    } else if t == "sent"@ {
        EventStatus::Sent
    } else if t == "failed"@ {
        EventStatus::Failed
    } else if t == "suppressed"@ {
        EventStatus::Suppressed
    } else {
        EventStatus::Queued
    }
}

impl EventStatus {
    /// The text under which the status is stored.
    pub fn as_str(self) -> (r: &'static str)
        ensures
            r@ == status_text(self),
    {
        match self {
            EventStatus::Queued => "queued",
            EventStatus::Sending => "sending",
            EventStatus::Retrying => "retrying",
            EventStatus::Sent => "sent",
            EventStatus::Failed => "failed",
            EventStatus::Suppressed => "suppressed",
        }
    }

    /// The status that a stored text stands for.
    pub fn parse(value: &str) -> (r: EventStatus)
        ensures
            r == parse_status_spec(value@),
    {
        if same_text(value, "sending") {
            EventStatus::Sending
        } else if same_text(value, "retrying") {
            EventStatus::Retrying
        } else if same_text(value, "sent") {
            EventStatus::Sent
        } else if same_text(value, "failed") {
            EventStatus::Failed
        } else if same_text(value, "suppressed") {
            EventStatus::Suppressed
        } else {
            EventStatus::Queued
        }
    }

    /// The status as the user interface names it.
    pub fn label(self) -> (r: &'static str)
        ensures
            r@ == status_text(self),
    {
        self.as_str()
    }
}

/// Reading a status's own text gives the status back.
pub proof fn lemma_status_text_round_trip(s: EventStatus)
    ensures
        parse_status_spec(status_text(s)) == s,
{
    reveal_strlit("queued");
    reveal_strlit("sending");
    reveal_strlit("retrying");
    reveal_strlit("sent");
    reveal_strlit("failed");
    reveal_strlit("suppressed");
    assert("queued"@[0] == 'q' && "failed"@[0] == 'f');
    assert("queued"@ != "failed"@);
    assert("queued"@ != "sending"@);
    assert("queued"@ != "retrying"@);
    assert("queued"@ != "sent"@);
    assert("queued"@ != "suppressed"@);
    assert("sending"@[0] == 's' && "retrying"@[0] == 'r');
    assert("sending"@ != "retrying"@);
    assert("sending"@[3] == 'd' && "sent"@[3] == 't');
    assert("sending"@ != "sent"@);
    assert("sending"@ != "failed"@);
    assert("sending"@ != "suppressed"@);
    assert("retrying"@ != "sent"@);
    assert("retrying"@ != "failed"@);
    assert("retrying"@ != "suppressed"@);
    assert("sent"@ != "failed"@);
    assert("sent"@ != "suppressed"@);
    assert("failed"@ != "suppressed"@);
}

pub struct EventRecord {
    pub id: i64,
    pub event_key: String,
    pub event_type: String,
    pub project: String,
    pub title: String,
    pub subtitle: String,
    pub body: String,
    pub status: EventStatus,
    pub attempts: u32,
    pub next_attempt_at: i64,
    pub created_at: i64,
    pub sent_at: Option<i64>,
    pub error: String,
    pub payload_json: String,
}

pub struct EventCounts {
    pub queued: u32,
    pub sending: u32,
    pub retrying: u32,
    pub sent: u32,
    pub failed: u32,
    pub suppressed: u32,
}

/// Two records with the same contents.
pub open spec fn same_record(a: EventRecord, b: EventRecord) -> bool {
    &&& a.id == b.id
    &&& a.event_key@ == b.event_key@
    &&& a.event_type@ == b.event_type@
    &&& a.project@ == b.project@
    &&& a.title@ == b.title@
    &&& a.subtitle@ == b.subtitle@
    &&& a.body@ == b.body@
    &&& a.status == b.status
    &&& a.attempts == b.attempts
    &&& a.next_attempt_at == b.next_attempt_at
    &&& a.created_at == b.created_at
    &&& a.sent_at == b.sent_at
    &&& a.error@ == b.error@
    &&& a.payload_json@ == b.payload_json@
}

/// A copy of a record.
pub fn copy_record(r: &EventRecord) -> (c: EventRecord)
    ensures
        same_record(c, *r),
{
    EventRecord {
        id: r.id,
        event_key: r.event_key.clone(),
        event_type: r.event_type.clone(),
        project: r.project.clone(),
        title: r.title.clone(),
        subtitle: r.subtitle.clone(),
        body: r.body.clone(),
        status: r.status,
        attempts: r.attempts,
        next_attempt_at: r.next_attempt_at,
        created_at: r.created_at,
        sent_at: r.sent_at,
        error: r.error.clone(),
        payload_json: r.payload_json.clone(),
    }
}

/// The span of timestamps that `chrono` can represent (about 262,000 years
/// either side of 1970), within which all times handed to the queue lie.
pub open spec fn valid_time(t: int) -> bool {
    -10_000_000_000_000 < t < 10_000_000_000_000
}

/// Calls `std::time::SystemTime::elapsed` on the Unix epoch: the whole
/// seconds since the epoch (`Ok`), or, for a clock set before the epoch, the
/// whole seconds before it (`Err`). What the clock reads is not stated.
#[verifier::external_body]
fn epoch_elapsed() -> (r: Result<u64, u64>) {
    match std::time::UNIX_EPOCH.elapsed() {
        Ok(d) => Ok(d.as_secs()),
        Err(e) => Err(e.duration().as_secs()),
    }
}

/// The largest number of seconds from the epoch that a time of the queue
/// may lie at.
pub const TIME_LIMIT: i64 = 9_999_999_999_999;

/// The Unix time of a clock reading (see `epoch_elapsed`): seconds after the
/// epoch, or negative seconds before it, kept within `valid_time`.
pub open spec fn clock_time(reading: Result<u64, u64>) -> int {
    match reading {
        Ok(s) => if s <= TIME_LIMIT {
            s as int
        } else {
            TIME_LIMIT as int
        },
        Err(s) => if s <= TIME_LIMIT {
            -(s as int)
        } else {
            -(TIME_LIMIT as int)
        },
    }
}

/// The Unix time of a clock reading; see `clock_time`.
pub fn time_of_reading(reading: Result<u64, u64>) -> (r: i64)
    ensures
        r == clock_time(reading),
        valid_time(r as int),
{
    match reading {
        Ok(s) => if s <= TIME_LIMIT as u64 {
            s as i64
        } else {
            TIME_LIMIT
        },
        Err(s) => if s <= TIME_LIMIT as u64 {
            -(s as i64)
        } else {
            -TIME_LIMIT
        },
    }
}

/// The current Unix time in seconds, from the system clock; see
/// `clock_time`. A clock set before 1970 gives a negative time.
pub(crate) fn unix_now() -> (r: i64)
    ensures
        valid_time(r as int),
        exists|reading: Result<u64, u64>| r == clock_time(reading),
{
    let reading = epoch_elapsed();
    let r = time_of_reading(reading);
    assert(r == clock_time(reading));
    r
}

/// How long after a failed attempt the next one is due: 10 s, 30 s, 2 min,
/// 10 min, 30 min, 1 h, 2 h, then 4 h.
pub open spec fn backoff(attempts: int) -> int {
    if attempts <= 1 {
        10
    } else if attempts == 2 {
        30
    } else if attempts == 3 {
        120
    } else if attempts == 4 {
        600
    } else if attempts == 5 {
        1800
    } else if attempts == 6 {
        3600
    } else if attempts == 7 {
        7200
    } else {
        14400
    }
}

fn backoff_delay(attempts: u32) -> (r: i64)
    ensures
        r == backoff(attempts as int),
        10 <= r <= 14400,
{
    let delays: [i64; 8] = [10, 30, 120, 600, 1800, 3600, 7200, 14400];
    let i: usize = if attempts == 0 {
        0
    } else if attempts - 1 >= 7 {
        7
    } else {
        (attempts - 1) as usize
    };
    delays[i]
}

/// Records waiting for delivery whose time has come.
pub open spec fn is_due(r: EventRecord, now: int) -> bool {
    (r.status == EventStatus::Queued || r.status == EventStatus::Retrying) && r.next_attempt_at <= now
}

/// Records whose delivery started more than five minutes ago without an outcome.
pub open spec fn is_stale(r: EventRecord, now: int) -> bool {
    r.status == EventStatus::Sending && r.next_attempt_at < now - 300
}

/// Records waiting for delivery or being delivered.
pub open spec fn is_pending(r: EventRecord) -> bool {
    r.status == EventStatus::Queued || r.status == EventStatus::Retrying || r.status
        == EventStatus::Sending
}

/// When a pending record is next worth looking at: its due time, or for a
/// delivery in progress the moment it counts as abandoned.
pub open spec fn due_time(r: EventRecord) -> int {
    if r.status == EventStatus::Sending {
        r.next_attempt_at + 300
    } else {
        r.next_attempt_at as int
    }
}

/// The order of the queue: by creation time, then by id; `asc` false
/// reverses it.
pub open spec fn before(a: EventRecord, b: EventRecord, asc: bool) -> bool {
    if asc {
        a.created_at < b.created_at || (a.created_at == b.created_at && a.id < b.id)
    } else {
        a.created_at > b.created_at || (a.created_at == b.created_at && a.id > b.id)
    }
}

/// Which records a query selects.
pub enum Filter {
    Due(i64),
    Status(Option<EventStatus>),
}

pub open spec fn selects(f: Filter, r: EventRecord) -> bool {
    match f {
        Filter::Due(now) => is_due(r, now as int),
        Filter::Status(s) => match s {
            Some(st) => r.status == st,
            None => true,
        },
    }
}

/// `idx` lists, in the order `asc`, the first `limit` records of `rs` that
/// the filter selects.
pub open spec fn is_selection(rs: Seq<EventRecord>, f: Filter, asc: bool, limit: nat, idx: Seq<int>) -> bool {
    &&& idx.len() <= limit
    &&& forall|k: int| 0 <= k < idx.len() ==> 0 <= #[trigger] idx[k] < rs.len() && selects(f, rs[idx[k]])
    &&& forall|k: int, l: int| 0 <= k < l < idx.len() ==> before(rs[#[trigger] idx[k]], rs[#[trigger] idx[l]], asc)
    &&& forall|i: int|
        0 <= i < rs.len() && selects(f, rs[i]) && !idx.contains(i) ==> idx.len() == limit
            && (idx.len() == 0 || before(rs[idx.last()], rs[i], asc))
}

/// Ids are positive, below the next id, and unique; so are event keys.
pub open spec fn wf_records(rs: Seq<EventRecord>, next_id: i64) -> bool {
    &&& 0 < next_id
    &&& forall|i: int| 0 <= i < rs.len() ==> 0 < #[trigger] rs[i].id < next_id
    &&& forall|i: int, j: int|
        0 <= i < rs.len() && 0 <= j < rs.len() && i != j ==> #[trigger] rs[i].id != #[trigger] rs[j].id
            && rs[i].event_key@ != rs[j].event_key@
}

/// The queue of events.
pub struct EventStore {
    records: Vec<EventRecord>,
    next_id: i64,
}

/// The record that enqueueing `n` at `now` creates with id `id`.
pub open spec fn new_record(r: EventRecord, id: i64, n: Notification, payload: Seq<char>, now: i64) -> bool {
    &&& r.id == id
    &&& r.event_key@ == n.event_key@
    &&& r.event_type@ == n.event_type@
    &&& r.project@ == n.project@
    &&& r.title@ == n.title@
    &&& r.subtitle@ == n.subtitle@
    &&& r.body@ == n.body@
    &&& r.status == (if n.suppressed {
        EventStatus::Suppressed
    } else {
        EventStatus::Queued
    })
    &&& r.attempts == 0
    &&& r.next_attempt_at == now
    &&& r.created_at == now
    &&& r.sent_at is None
    &&& r.error@ == n.suppress_reason@
    &&& r.payload_json@ == payload
}

/// Some record of `rs` has the event key `key`.
pub open spec fn has_key(rs: Seq<EventRecord>, key: Seq<char>) -> bool {
    exists|i: int| 0 <= i < rs.len() && rs[i].event_key@ == key
}

/// Enqueueing `n` at `now` into the queue `old` (next id `old_next`) gives
/// `new` (next id `new_next`) and the answer `r`: an event key already stored
/// leaves the queue as it is and answers that record's id and `false`; a new
/// key appends a record under the next id and answers that id and `true`.
pub open spec fn enqueue_rel(
    old: Seq<EventRecord>,
    old_next: i64,
    new: Seq<EventRecord>,
    new_next: i64,
    n: Notification,
    payload: Seq<char>,
    now: i64,
    r: (i64, bool),
) -> bool {
    if has_key(old, n.event_key@) {
        &&& !r.1
        &&& new == old
        &&& new_next == old_next
        &&& exists|i: int| 0 <= i < old.len() && old[i].event_key@ == n.event_key@ && old[i].id == r.0
    } else {
        &&& r.1
        &&& r.0 == old_next
        &&& new_next == old_next + 1
        &&& new.len() == old.len() + 1
        &&& new.drop_last() == old
        &&& new_record(new.last(), r.0, n, payload, now)
    }
}

/// `r` is `o` with only its status and due time changed.
pub open spec fn restatused(r: EventRecord, o: EventRecord, status: EventStatus, next: i64) -> bool {
    &&& r.id == o.id
    &&& r.event_key == o.event_key
    &&& r.event_type == o.event_type
    &&& r.project == o.project
    &&& r.title == o.title
    &&& r.subtitle == o.subtitle
    &&& r.body == o.body
    &&& r.status == status
    &&& r.attempts == o.attempts
    &&& r.next_attempt_at == next
    &&& r.created_at == o.created_at
    &&& r.sent_at == o.sent_at
    &&& r.error == o.error
    &&& r.payload_json == o.payload_json
}

/// A stale delivery is given back to the retry queue; other records stay.
pub open spec fn recovered(r: EventRecord, o: EventRecord, now: int) -> bool {
    if is_stale(o, now) {
        restatused(r, o, EventStatus::Retrying, o.next_attempt_at)
    } else {
        r == o
    }
}

pub open spec fn count_status(rs: Seq<EventRecord>, s: EventStatus) -> nat
    decreases rs.len(),
{
    if rs.len() == 0 {
        0
    } else {
        count_status(rs.drop_last(), s) + if rs.last().status == s {
            1nat
        } else {
            0nat
        }
    }
}

pub open spec fn sat_u32(n: nat) -> u32 {
    if n > u32::MAX {
        u32::MAX
    } else {
        n as u32
    }
}

/// The seconds until the earliest pending record is worth looking at, never
/// negative; `None` when nothing is pending.
pub open spec fn min_due(rs: Seq<EventRecord>) -> Option<int>
    decreases rs.len(),
{
    if rs.len() == 0 {
        None
    } else {
        let prev = min_due(rs.drop_last());
        if is_pending(rs.last()) {
            match prev {
                Some(m) => Some(if due_time(rs.last()) < m {
                    due_time(rs.last())
                } else {
                    m
                }),
                None => Some(due_time(rs.last())),
            }
        } else {
            prev
        }
    }
}

pub open spec fn delay_spec(rs: Seq<EventRecord>, now: int) -> Option<u64> {
    match min_due(rs) {
        None => None,
        Some(d) => Some(
            if d - now <= 0 {
                0u64
            } else if d - now > i64::MAX {
                i64::MAX as u64
            } else {
                (d - now) as u64
            },
        ),
    }
}

impl EventStore {
    pub closed spec fn wf(&self) -> bool {
        wf_records(self.records@, self.next_id)
    }

    pub closed spec fn records_view(&self) -> Seq<EventRecord> {
        self.records@
    }

    pub closed spec fn next_id_view(&self) -> i64 {
        self.next_id
    }

    /// An empty queue.
    pub fn new() -> (r: EventStore)
        ensures
            r.wf(),
            r.records_view().len() == 0,
            r.next_id_view() == 1,
    {
        EventStore { records: Vec::new(), next_id: 1 }
    }

    /// The queue's records, in storage order.
    pub fn records(&self) -> (r: &Vec<EventRecord>)
        ensures
            r@ == self.records_view(),
    {
        &self.records
    }

    /// The id the next new record will get.
    pub fn next_id(&self) -> (r: i64)
        ensures
            r == self.next_id_view(),
    {
        self.next_id
    }

    /// A queue holding `records`, if their ids and keys are unique, positive
    /// and below `next_id`.
    pub fn from_records(records: Vec<EventRecord>, next_id: i64) -> (r: Option<EventStore>)
        ensures
            match r {
                Some(s) => s.wf() && s.records_view() == records@ && s.next_id_view() == next_id,
                None => !wf_records(records@, next_id),
            },
    {
        if next_id <= 0 {
            return None;
        }
        let mut i: usize = 0;
        while i < records.len()
            invariant
                0 < next_id,
                i <= records.len(),
                forall|a: int| 0 <= a < i ==> 0 < #[trigger] records@[a].id < next_id,
                forall|a: int, b: int|
                    0 <= a < i && 0 <= b < i && a != b ==> #[trigger] records@[a].id
                        != #[trigger] records@[b].id && records@[a].event_key@
                        != records@[b].event_key@,
            decreases records.len() - i,
        {
            if records[i].id <= 0 || records[i].id >= next_id {
                return None;
            }
            let mut j: usize = 0;
            while j < i
                invariant
                    i < records.len(),
                    j <= i,
                    forall|b: int| 0 <= b < j ==> records@[b].id != records@[i as int].id
                        && records@[b].event_key@ != records@[i as int].event_key@,
                decreases i - j,
            {
                if records[j].id == records[i].id || same_text(
                    records[j].event_key.as_str(),
                    records[i].event_key.as_str(),
                ) {
                    return None;
                }
                j = j + 1;
            }
            i = i + 1;
        }
        Some(EventStore { records, next_id })
    }

    fn find_key(&self, key: &str) -> (r: Option<usize>)
        ensures
            match r {
                Some(i) => i < self.records@.len() && self.records@[i as int].event_key@ == key@,
                None => forall|i: int| 0 <= i < self.records@.len() ==> self.records@[i].event_key@ != key@,
            },
    {
        let mut i: usize = 0;
        while i < self.records.len()
            invariant
                i <= self.records@.len(),
                forall|k: int| 0 <= k < i ==> self.records@[k].event_key@ != key@,
            decreases self.records.len() - i,
        {
            if same_text(self.records[i].event_key.as_str(), key) {
                return Some(i);
            }
            i = i + 1;
        }
        None
    }

    fn find_id(&self, id: i64) -> (r: Option<usize>)
        ensures
            match r {
                Some(i) => i < self.records@.len() && self.records@[i as int].id == id,
                None => forall|i: int| 0 <= i < self.records@.len() ==> self.records@[i].id != id,
            },
    {
        let mut i: usize = 0;
        while i < self.records.len()
            invariant
                i <= self.records@.len(),
                forall|k: int| 0 <= k < i ==> self.records@[k].id != id,
            decreases self.records.len() - i,
        {
            if self.records[i].id == id {
                return Some(i);
            }
            i = i + 1;
        }
        None
    }

    /// Stores `n` (with its serialized form `payload_json`) unless a record
    /// with its event key exists; returns the record's id and whether it was
    /// created. A new record is queued, or suppressed when `n` is.
    pub fn enqueue_at(&mut self, n: &Notification, payload_json: String, now: i64) -> (r: (i64, bool))
        requires
            old(self).wf(),
            old(self).next_id_view() < i64::MAX,
        ensures
            final(self).wf(),
            enqueue_rel(
                old(self).records_view(),
                old(self).next_id_view(),
                final(self).records_view(),
                final(self).next_id_view(),
                *n,
                payload_json@,
                now,
                r,
            ),
    {
        match self.find_key(n.event_key.as_str()) {
            Some(i) => {
                (self.records[i].id, false)
            },
            None => {
                let id = self.next_id;
                let status = if n.suppressed {
                    EventStatus::Suppressed
                } else {
                    EventStatus::Queued
                };
                let record = EventRecord {
                    id,
                    event_key: n.event_key.clone(),
                    event_type: n.event_type.clone(),
                    project: n.project.clone(),
                    title: n.title.clone(),
                    subtitle: n.subtitle.clone(),
                    body: n.body.clone(),
                    status,
                    attempts: 0,
                    next_attempt_at: now,
                    created_at: now,
                    sent_at: None,
                    error: n.suppress_reason.clone(),
                    payload_json,
                };
                let ghost old_records = self.records@;
                let ghost rec = record;
                self.records.push(record);
                assert(self.records@[old_records.len() as int] == rec);
                assert(forall|k: int| 0 <= k < old_records.len() ==> self.records@[k] == old_records[k]);
                self.next_id = id + 1;
                assert(self.records@.drop_last() =~= old_records);
                assert forall|a: int, b: int|
                    0 <= a < self.records@.len() && 0 <= b < self.records@.len() && a != b
                    implies #[trigger] self.records@[a].id != #[trigger] self.records@[b].id
                    && self.records@[a].event_key@ != self.records@[b].event_key@ by {
                    if a < old_records.len() && b < old_records.len() {
                        assert(old_records[a] == self.records@[a]);
                        assert(old_records[b] == self.records@[b]);
                    }
                }
                (id, true)
            },
        }
    }

    /// Stores `n` at the current time; see `enqueue_at`.
    pub fn enqueue(&mut self, n: &Notification, payload_json: String) -> (r: (i64, bool))
        requires
            old(self).wf(),
            old(self).next_id_view() < i64::MAX,
        ensures
            final(self).wf(),
            exists|now: i64|
                valid_time(now as int) && enqueue_rel(
                    old(self).records_view(),
                    old(self).next_id_view(),
                    final(self).records_view(),
                    final(self).next_id_view(),
                    *n,
                    payload_json@,
                    now,
                    r,
                ),
    {
        let now = unix_now();
        self.enqueue_at(n, payload_json, now)
    }

    /// The record with id `id`, if any.
    pub fn get(&self, id: i64) -> (r: Option<EventRecord>)
        requires
            self.wf(),
        ensures
            match r {
                Some(rec) => exists|i: int| 0 <= i < self.records_view().len() && self.records_view()[i].id == id
                    && same_record(rec, self.records_view()[i]),
                None => forall|i: int| 0 <= i < self.records_view().len() ==> self.records_view()[i].id != id,
            },
    {
        match self.find_id(id) {
            Some(i) => Some(copy_record(&self.records[i])),
            None => None,
        }
    }

    /// Replaces record `i` by a copy with another status and due time.
    fn set_status(&mut self, i: usize, status: EventStatus, next: i64)
        requires
            i < old(self).records@.len(),
        ensures
            final(self).next_id == old(self).next_id,
            final(self).records@.len() == old(self).records@.len(),
            restatused(final(self).records@[i as int], old(self).records@[i as int], status, next),
            forall|k: int| 0 <= k < old(self).records@.len() && k != i ==> final(self).records@[k] == old(self).records@[k],
    {
        let mut rec = self.records.remove(i);
        rec.status = status;
        rec.next_attempt_at = next;
        self.records.insert(i, rec);
    }

    /// Gives every delivery that started more than five minutes before `now`
    /// back to the retry queue.
    fn recover_stale(&mut self, now: i64)
        requires
            old(self).wf(),
            valid_time(now as int),
        ensures
            final(self).wf(),
            final(self).next_id == old(self).next_id,
            final(self).records@.len() == old(self).records@.len(),
            forall|k: int| 0 <= k < old(self).records@.len() ==> recovered(final(self).records@[k], old(self).records@[k], now as int),
    {
        let ghost start = self.records@;
        let mut i: usize = 0;
        while i < self.records.len()
            invariant
                self.next_id == old(self).next_id,
                start == old(self).records@,
                self.records@.len() == start.len(),
                i <= start.len(),
                valid_time(now as int),
                forall|k: int| 0 <= k < i ==> recovered(self.records@[k], start[k], now as int),
                forall|k: int| i <= k < start.len() ==> self.records@[k] == start[k],
            decreases start.len() - i,
        {
            if self.records[i].status == EventStatus::Sending && self.records[i].next_attempt_at < now - 300 {
                let next = self.records[i].next_attempt_at;
                self.set_status(i, EventStatus::Retrying, next);
            }
            i = i + 1;
        }
        assert forall|a: int| 0 <= a < self.records@.len() implies 0 < #[trigger] self.records@[a].id < self.next_id by {
            assert(self.records@[a].id == start[a].id);
        }
        assert forall|a: int, b: int|
            0 <= a < self.records@.len() && 0 <= b < self.records@.len() && a != b
            implies #[trigger] self.records@[a].id != #[trigger] self.records@[b].id
            && self.records@[a].event_key@ != self.records@[b].event_key@ by {
            assert(self.records@[a].id == start[a].id && self.records@[a].event_key == start[a].event_key);
            assert(self.records@[b].id == start[b].id && self.records@[b].event_key == start[b].event_key);
        }
    }
}

fn selects_exec(f: &Filter, r: &EventRecord) -> (b: bool)
    ensures
        b == selects(*f, *r),
{
    match f {
        Filter::Due(now) => (r.status == EventStatus::Queued || r.status == EventStatus::Retrying)
            && r.next_attempt_at <= *now,
        Filter::Status(s) => match s {
            Some(st) => r.status == *st,
            None => true,
        },
    }
}

fn before_exec(a: &EventRecord, b: &EventRecord, asc: bool) -> (r: bool)
    ensures
        r == before(*a, *b, asc),
{
    if asc {
        a.created_at < b.created_at || (a.created_at == b.created_at && a.id < b.id)
    } else {
        a.created_at > b.created_at || (a.created_at == b.created_at && a.id > b.id)
    }
}

proof fn lemma_before_trans(a: EventRecord, b: EventRecord, c: EventRecord, asc: bool)
    requires
        before(a, b, asc),
        before(b, c, asc),
    ensures
        before(a, c, asc),
{
}

pub open spec fn ints(v: Seq<usize>) -> Seq<int> {
    Seq::new(v.len(), |i: int| v[i] as int)
}

proof fn lemma_before_total(a: EventRecord, b: EventRecord, asc: bool)
    requires
        a.id != b.id,
    ensures
        before(a, b, asc) || before(b, a, asc),
{
}

/// After the last taken position (or anywhere, when none is taken yet).
pub open spec fn after_last(rs: Seq<EventRecord>, iv: Seq<int>, k: int, asc: bool) -> bool {
    iv.len() == 0 || before(rs[iv.last()], rs[k], asc)
}

/// The positions of the first `limit` records that `f` selects, in order `asc`.
fn select(rs: &Vec<EventRecord>, f: &Filter, asc: bool, limit: usize) -> (idx: Vec<usize>)
    requires
        forall|i: int, j: int| 0 <= i < rs@.len() && 0 <= j < rs@.len() && i != j ==> #[trigger] rs@[i].id != #[trigger] rs@[j].id,
    ensures
        is_selection(rs@, *f, asc, limit as nat, ints(idx@)),
{
    let mut idx: Vec<usize> = Vec::new();
    assert(ints(idx@) =~= Seq::<int>::empty());
    loop
        invariant
            forall|i: int, j: int| 0 <= i < rs@.len() && 0 <= j < rs@.len() && i != j ==> #[trigger] rs@[i].id != #[trigger] rs@[j].id,
            idx@.len() <= limit,
            forall|k: int| 0 <= k < ints(idx@).len() ==> 0 <= #[trigger] ints(idx@)[k] < rs@.len() && selects(*f, rs@[ints(idx@)[k]]),
            forall|k: int, l: int| 0 <= k < l < ints(idx@).len() ==> before(rs@[#[trigger] ints(idx@)[k]], rs@[#[trigger] ints(idx@)[l]], asc),
            forall|i: int|
                0 <= i < rs@.len() && selects(*f, rs@[i]) && !ints(idx@).contains(i) ==> after_last(rs@, ints(idx@), i, asc),
        ensures
            is_selection(rs@, *f, asc, limit as nat, ints(idx@)),
        decreases limit - idx@.len(),
    {
        let ghost iv = ints(idx@);
        if idx.len() >= limit {
            return idx;
        }
        // Find the first remaining selected record in order.
        let mut best: Option<usize> = None;
        let mut i: usize = 0;
        while i < rs.len()
            invariant
                i <= rs@.len(),
                iv == ints(idx@),
                forall|a: int, b: int| 0 <= a < rs@.len() && 0 <= b < rs@.len() && a != b ==> #[trigger] rs@[a].id != #[trigger] rs@[b].id,
                forall|k: int| 0 <= k < iv.len() ==> 0 <= #[trigger] iv[k] < rs@.len(),
                match best {
                    Some(b) => b < i && selects(*f, rs@[b as int]) && after_last(rs@, iv, b as int, asc)
                        && forall|k: int| 0 <= k < i && selects(*f, rs@[k]) && after_last(rs@, iv, k, asc) && k != b
                            ==> before(rs@[b as int], rs@[k], asc),
                    None => forall|k: int| 0 <= k < i ==> !(selects(*f, rs@[k]) && after_last(rs@, iv, k, asc)),
                },
            decreases rs.len() - i,
        {
            let mut candidate = selects_exec(f, &rs[i]);
            if candidate && idx.len() > 0 {
                let li = idx[idx.len() - 1];
                proof {
                    assert(iv.last() == li as int);
                    assert(iv[iv.len() - 1] == li as int);
                }
                candidate = before_exec(&rs[li], &rs[i], asc);
            }
            if candidate {
                match best {
                    None => {
                        best = Some(i);
                    },
                    Some(b) => {
                        proof {
                            lemma_before_total(rs@[i as int], rs@[b as int], asc);
                        }
                        if before_exec(&rs[i], &rs[b], asc) {
                            proof {
                                assert forall|k: int| 0 <= k < i + 1 && selects(*f, rs@[k]) && after_last(rs@, iv, k, asc) && k != i
                                    implies before(rs@[i as int], rs@[k], asc) by {
                                    if k != b {
                                        lemma_before_trans(rs@[i as int], rs@[b as int], rs@[k], asc);
                                    }
                                }
                            }
                            best = Some(i);
                        }
                    },
                }
            }
            i = i + 1;
        }
        match best {
            None => {
                return idx;
            },
            Some(b) => {
                idx.push(b);
                proof {
                    let nv = ints(idx@);
                    assert(nv =~= iv.push(b as int));
                    assert forall|k: int, l: int| 0 <= k < l < nv.len() implies before(rs@[#[trigger] nv[k]], rs@[#[trigger] nv[l]], asc) by {
                        if l == nv.len() - 1 && k < iv.len() - 1 {
                            lemma_before_trans(rs@[nv[k]], rs@[iv.last()], rs@[b as int], asc);
                        }
                    }
                    assert forall|a: int|
                        0 <= a < rs@.len() && selects(*f, rs@[a]) && !nv.contains(a) implies after_last(rs@, nv, a, asc) by {
                        if !iv.contains(a) {
                            assert(a != b as int) by {
                                assert(nv[nv.len() - 1] == b as int);
                            }
                        } else {
                            let k = choose|k: int| 0 <= k < iv.len() && iv[k] == a;
                            assert(nv[k] == a);
                        }
                    }
                }
            },
        }
    }
}

/// `out` are the records that a claim at `now` hands out, and `new` the queue
/// after it: stale deliveries go back to the retry queue, then the first
/// `limit` due records, oldest first, are handed out and marked as being
/// delivered from `now` on.
pub open spec fn claim_rel(old: Seq<EventRecord>, new: Seq<EventRecord>, out: Seq<EventRecord>, limit: nat, now: i64) -> bool {
    exists|mid: Seq<EventRecord>, idx: Seq<int>| {
        &&& mid.len() == old.len()
        &&& forall|k: int| 0 <= k < old.len() ==> recovered(#[trigger] mid[k], old[k], now as int)
        &&& is_selection(mid, Filter::Due(now), true, limit, idx)
        &&& out.len() == idx.len()
        &&& forall|k: int| 0 <= k < idx.len() ==> same_record(#[trigger] out[k], mid[idx[k]])
        &&& new.len() == old.len()
        &&& forall|k: int| 0 <= k < new.len() ==> if idx.contains(k) {
            restatused(#[trigger] new[k], mid[k], EventStatus::Sending, now)
        } else {
            new[k] == mid[k]
        }
    }
}

/// `new` is `old` with the record at `i` changed by `f` and all others kept.
pub open spec fn changed_at(old: Seq<EventRecord>, new: Seq<EventRecord>, i: int) -> bool {
    &&& new.len() == old.len()
    &&& forall|k: int| 0 <= k < old.len() && k != i ==> new[k] == old[k]
}

/// Marking a delivery as sent.
pub open spec fn sent_record(r: EventRecord, o: EventRecord, now: i64) -> bool {
    &&& r.id == o.id
    &&& r.event_key == o.event_key
    &&& r.event_type == o.event_type
    &&& r.project == o.project
    &&& r.title == o.title
    &&& r.subtitle == o.subtitle
    &&& r.body == o.body
    &&& r.status == EventStatus::Sent
    &&& r.attempts == sat_u32((o.attempts + 1) as nat)
    &&& r.next_attempt_at == o.next_attempt_at
    &&& r.created_at == o.created_at
    &&& r.sent_at == Some(now)
    &&& r.error@.len() == 0
    &&& r.payload_json == o.payload_json
}

/// Marking a delivery as failed: one more attempt, failed for good once the
/// retry limit is reached, else due again after the backoff delay; the error
/// is kept, cut to 500 characters.
pub open spec fn failed_record(r: EventRecord, o: EventRecord, error: Seq<char>, retry_limit: u32, now: i64) -> bool {
    let attempts = sat_u32((o.attempts + 1) as nat);
    &&& r.id == o.id
    &&& r.event_key == o.event_key
    &&& r.event_type == o.event_type
    &&& r.project == o.project
    &&& r.title == o.title
    &&& r.subtitle == o.subtitle
    &&& r.body == o.body
    &&& r.status == (if attempts >= retry_limit {
        EventStatus::Failed
    } else {
        EventStatus::Retrying
    })
    &&& r.attempts == attempts
    &&& r.next_attempt_at == now + backoff(attempts as int)
    &&& r.created_at == o.created_at
    &&& r.sent_at == o.sent_at
    &&& r.error@ == take_spec(error, 500)
    &&& r.payload_json == o.payload_json
}

/// Requeueing a failed record.
pub open spec fn requeued_record(r: EventRecord, o: EventRecord, now: i64) -> bool {
    &&& r.id == o.id
    &&& r.event_key == o.event_key
    &&& r.event_type == o.event_type
    &&& r.project == o.project
    &&& r.title == o.title
    &&& r.subtitle == o.subtitle
    &&& r.body == o.body
    &&& r.status == EventStatus::Queued
    &&& r.attempts == o.attempts
    &&& r.next_attempt_at == now
    &&& r.created_at == o.created_at
    &&& r.sent_at == o.sent_at
    &&& r.error@.len() == 0
    &&& r.payload_json == o.payload_json
}

/// Which records a retry requeues: failed ones, with the given id if any.
pub open spec fn retried(r: EventRecord, id: Option<i64>) -> bool {
    r.status == EventStatus::Failed && match id {
        Some(i) => r.id == i,
        None => true,
    }
}

pub open spec fn count_retried(rs: Seq<EventRecord>, id: Option<i64>) -> nat
    decreases rs.len(),
{
    if rs.len() == 0 {
        0
    } else {
        count_retried(rs.drop_last(), id) + if retried(rs.last(), id) {
            1nat
        } else {
            0nat
        }
    }
}

/// The records that clearing the history keeps: the pending ones, in order.
pub open spec fn pending_only(rs: Seq<EventRecord>) -> Seq<EventRecord>
    decreases rs.len(),
{
    if rs.len() == 0 {
        Seq::empty()
    } else if is_pending(rs.last()) {
        pending_only(rs.drop_last()).push(rs.last())
    } else {
        pending_only(rs.drop_last())
    }
}

impl EventStore {
    /// Hands out the first `limit` due records (oldest first) for delivery at
    /// `now`, after giving deliveries abandoned for five minutes back to the
    /// retry queue; the records handed out are marked as being delivered.
    pub fn claim_due_at(&mut self, limit: u32, now: i64) -> (out: Vec<EventRecord>)
        requires
            old(self).wf(),
            valid_time(now as int),
        ensures
            final(self).wf(),
            final(self).next_id_view() == old(self).next_id_view(),
            claim_rel(old(self).records_view(), final(self).records_view(), out@, limit as nat, now),
    {
        let ghost start = self.records@;
        self.recover_stale(now);
        let ghost mid = self.records@;
        let idx = select(&self.records, &Filter::Due(now), true, limit as usize);
        let ghost iv = ints(idx@);
        let mut out: Vec<EventRecord> = Vec::new();
        let mut j: usize = 0;
        while j < idx.len()
            invariant
                j <= idx.len(),
                iv == ints(idx@),
                wf_records(self.records@, self.next_id),
                self.next_id == old(self).next_id,
                is_selection(mid, Filter::Due(now), true, limit as nat, iv),
                self.records@.len() == mid.len(),
                out@.len() == j,
                forall|k: int| 0 <= k < j ==> same_record(#[trigger] out@[k], mid[iv[k]]),
                forall|k: int| 0 <= k < mid.len() ==> if iv.subrange(0, j as int).contains(k) {
                    restatused(#[trigger] self.records@[k], mid[k], EventStatus::Sending, now)
                } else {
                    self.records@[k] == mid[k]
                },
            decreases idx.len() - j,
        {
            let i = idx[j];
            assert(iv[j as int] == i as int);
            proof {
                // Positions in the selection are distinct.
                assert forall|k: int| 0 <= k < j implies iv[k] != i as int by {
                    assert(before(mid[iv[k]], mid[iv[j as int]], true));
                }
                assert(!iv.subrange(0, j as int).contains(i as int));
            }
            out.push(copy_record(&self.records[i]));
            let ghost before_set = self.records@;
            self.set_status(i, EventStatus::Sending, now);
            proof {
                assert(iv.subrange(0, j + 1) =~= iv.subrange(0, j as int).push(i as int));
                self.lemma_keep_wf(before_set, i as int);
                assert(before_set[i as int] == mid[i as int]);
                assert forall|k: int| 0 <= k < mid.len() implies if iv.subrange(0, j + 1).contains(k) {
                    restatused(#[trigger] self.records@[k], mid[k], EventStatus::Sending, now)
                } else {
                    self.records@[k] == mid[k]
                } by {
                    if k == i as int {
                        assert(iv.subrange(0, j + 1)[j as int] == k);
                    } else {
                        assert(self.records@[k] == before_set[k]);
                        if iv.subrange(0, j + 1).contains(k) {
                            let t = choose|t: int| 0 <= t < j + 1 && #[trigger] iv.subrange(0, j + 1)[t] == k;
                            assert(t < j);
                            assert(iv.subrange(0, j as int)[t] == k);
                        } else {
                            if iv.subrange(0, j as int).contains(k) {
                                let t = choose|t: int| 0 <= t < j && #[trigger] iv.subrange(0, j as int)[t] == k;
                                assert(iv.subrange(0, j + 1)[t] == k);
                            }
                        }
                    }
                }
            }
            j = j + 1;
        }
        assert(iv.subrange(0, idx.len() as int) =~= iv);
        assert(claim_rel(start, self.records@, out@, limit as nat, now));
        out
    }

    /// Claims due records at the current time; see `claim_due_at`.
    pub fn claim_due(&mut self, limit: u32) -> (out: Vec<EventRecord>)
        requires
            old(self).wf(),
        ensures
            final(self).wf(),
            exists|now: i64| valid_time(now as int) && claim_rel(old(self).records_view(), final(self).records_view(), out@, limit as nat, now),
    {
        let now = unix_now();
        self.claim_due_at(limit, now)
    }

    /// Seconds until queue processing is useful at `now`: until the earliest
    /// due record, or until an abandoned delivery may be retried; `None` when
    /// nothing is pending.
    pub fn next_due_delay_at(&self, now: i64) -> (r: Option<u64>)
        requires
            valid_time(now as int),
        ensures
            r == delay_spec(self.records_view(), now as int),
    {
        let mut best: Option<i128> = None;
        let mut i: usize = 0;
        while i < self.records.len()
            invariant
                i <= self.records@.len(),
                match best {
                    Some(b) => min_due(self.records@.take(i as int)) == Some(b as int) && i64::MIN <= b
                        <= i64::MAX + 300,
                    None => min_due(self.records@.take(i as int)) is None,
                },
            decreases self.records.len() - i,
        {
            let r = &self.records[i];
            assert(self.records@.take(i + 1).drop_last() =~= self.records@.take(i as int));
            if r.status == EventStatus::Queued || r.status == EventStatus::Retrying || r.status == EventStatus::Sending {
                let due: i128 = if r.status == EventStatus::Sending {
                    (r.next_attempt_at as i128) + 300
                } else {
                    r.next_attempt_at as i128
                };
                best = match best {
                    Some(b) => Some(if due < b { due } else { b }),
                    None => Some(due),
                };
            }
            i = i + 1;
        }
        assert(self.records@.take(self.records.len() as int) =~= self.records@);
        match best {
            None => None,
            Some(d) => {
                let delta: i128 = d - (now as i128);
                if delta <= 0 {
                    Some(0)
                } else if delta > (i64::MAX as i128) {
                    Some(i64::MAX as u64)
                } else {
                    Some(delta as u64)
                }
            },
        }
    }

    /// Seconds until queue processing is useful; see `next_due_delay_at`.
    pub fn next_due_delay(&self) -> (r: Option<u64>)
        ensures
            exists|now: i64| valid_time(now as int) && r == delay_spec(self.records_view(), now as int),
    {
        let now = unix_now();
        self.next_due_delay_at(now)
    }

    proof fn lemma_keep_wf(&self, old_records: Seq<EventRecord>, i: int)
        requires
            wf_records(old_records, self.next_id),
            self.records@.len() == old_records.len(),
            0 <= i < old_records.len(),
            self.records@[i].id == old_records[i].id,
            self.records@[i].event_key == old_records[i].event_key,
            forall|k: int| 0 <= k < old_records.len() && k != i ==> self.records@[k] == old_records[k],
        ensures
            self.wf(),
    {
        assert forall|a: int| 0 <= a < self.records@.len() implies 0 < #[trigger] self.records@[a].id < self.next_id by {
            assert(self.records@[a].id == old_records[a].id);
        }
        assert forall|a: int, b: int|
            0 <= a < self.records@.len() && 0 <= b < self.records@.len() && a != b
            implies #[trigger] self.records@[a].id != #[trigger] self.records@[b].id
            && self.records@[a].event_key@ != self.records@[b].event_key@ by {
            assert(self.records@[a].id == old_records[a].id && self.records@[a].event_key == old_records[a].event_key);
            assert(self.records@[b].id == old_records[b].id && self.records@[b].event_key == old_records[b].event_key);
        }
    }

    /// Marks the record `id` as sent at `now`.
    pub fn mark_sent_at(&mut self, id: i64, now: i64)
        requires
            old(self).wf(),
        ensures
            final(self).wf(),
            final(self).next_id_view() == old(self).next_id_view(),
            match find_spec(old(self).records_view(), id) {
                Some(i) => changed_at(old(self).records_view(), final(self).records_view(), i)
                    && sent_record(final(self).records_view()[i], old(self).records_view()[i], now),
                None => final(self).records_view() == old(self).records_view(),
            },
    {
        match self.find_id(id) {
            None => {
                proof {
                    lemma_find_none(self.records@, id);
                }
            },
            Some(i) => {
                proof {
                    lemma_find_some(self.records@, id, i as int);
                }
                let ghost old_records = self.records@;
                let mut rec = self.records.remove(i);
                rec.status = EventStatus::Sent;
                rec.attempts = if rec.attempts == u32::MAX { u32::MAX } else { rec.attempts + 1 };
                rec.sent_at = Some(now);
                rec.error = String::new();
                self.records.insert(i, rec);
                proof {
                    assert(forall|k: int| 0 <= k < old_records.len() && k != i ==> self.records@[k] == old_records[k]);
                    self.lemma_keep_wf(old_records, i as int);
                }
            },
        }
    }

    /// Marks the record `id` as sent now.
    pub fn mark_sent(&mut self, id: i64)
        requires
            old(self).wf(),
        ensures
            final(self).wf(),
            exists|now: i64| valid_time(now as int) && match find_spec(old(self).records_view(), id) {
                Some(i) => changed_at(old(self).records_view(), final(self).records_view(), i)
                    && sent_record(final(self).records_view()[i], old(self).records_view()[i], now),
                None => final(self).records_view() == old(self).records_view(),
            },
    {
        let now = unix_now();
        self.mark_sent_at(id, now)
    }

    /// Records a failed delivery of `id` at `now`; see `failed_record`.
    pub fn mark_failed_at(&mut self, id: i64, error: &str, retry_limit: u32, now: i64)
        requires
            old(self).wf(),
            valid_time(now as int),
        ensures
            final(self).wf(),
            final(self).next_id_view() == old(self).next_id_view(),
            match find_spec(old(self).records_view(), id) {
                Some(i) => changed_at(old(self).records_view(), final(self).records_view(), i)
                    && failed_record(final(self).records_view()[i], old(self).records_view()[i], error@, retry_limit, now),
                None => final(self).records_view() == old(self).records_view(),
            },
    {
        match self.find_id(id) {
            None => {
                proof {
                    lemma_find_none(self.records@, id);
                }
            },
            Some(i) => {
                proof {
                    lemma_find_some(self.records@, id, i as int);
                }
                let ghost old_records = self.records@;
                let mut rec = self.records.remove(i);
                let attempts: u32 = if rec.attempts == u32::MAX { u32::MAX } else { rec.attempts + 1 };
                rec.status = if attempts >= retry_limit { EventStatus::Failed } else { EventStatus::Retrying };
                rec.attempts = attempts;
                rec.next_attempt_at = now + backoff_delay(attempts);
                rec.error = take_chars(error, 500);
                self.records.insert(i, rec);
                proof {
                    assert(forall|k: int| 0 <= k < old_records.len() && k != i ==> self.records@[k] == old_records[k]);
                    self.lemma_keep_wf(old_records, i as int);
                }
            },
        }
    }

    /// Records a failed delivery of `id` now.
    pub fn mark_failed(&mut self, id: i64, error: &str, retry_limit: u32)
        requires
            old(self).wf(),
        ensures
            final(self).wf(),
            exists|now: i64| valid_time(now as int) && match find_spec(old(self).records_view(), id) {
                Some(i) => changed_at(old(self).records_view(), final(self).records_view(), i)
                    && failed_record(final(self).records_view()[i], old(self).records_view()[i], error@, retry_limit, now),
                None => final(self).records_view() == old(self).records_view(),
            },
    {
        let now = unix_now();
        self.mark_failed_at(id, error, retry_limit, now)
    }

    /// Requeues failed records at `now` (only `id`, when given); returns how
    /// many were requeued.
    pub fn retry_at(&mut self, id: Option<i64>, now: i64) -> (r: usize)
        requires
            old(self).wf(),
        ensures
            final(self).wf(),
            final(self).next_id_view() == old(self).next_id_view(),
            final(self).records_view().len() == old(self).records_view().len(),
            forall|k: int| 0 <= k < old(self).records_view().len() ==> if retried(old(self).records_view()[k], id) {
                requeued_record(#[trigger] final(self).records_view()[k], old(self).records_view()[k], now)
            } else {
                final(self).records_view()[k] == old(self).records_view()[k]
            },
            r == count_retried(old(self).records_view(), id),
    {
        let ghost start = self.records@;
        let mut count: usize = 0;
        let mut i: usize = 0;
        while i < self.records.len()
            invariant
                start == old(self).records@,
                self.next_id == old(self).next_id,
                wf_records(self.records@, self.next_id),
                self.records@.len() == start.len(),
                i <= start.len(),
                count == count_retried(start.take(i as int), id),
                count <= i,
                forall|k: int| 0 <= k < i ==> if retried(start[k], id) {
                    requeued_record(#[trigger] self.records@[k], start[k], now)
                } else {
                    self.records@[k] == start[k]
                },
                forall|k: int| i <= k < start.len() ==> self.records@[k] == start[k],
            decreases start.len() - i,
        {
            assert(start.take(i + 1).drop_last() =~= start.take(i as int));
            let hit = self.records[i].status == EventStatus::Failed && match id {
                Some(x) => self.records[i].id == x,
                None => true,
            };
            if hit {
                let ghost before_set = self.records@;
                let mut rec = self.records.remove(i);
                rec.status = EventStatus::Queued;
                rec.next_attempt_at = now;
                rec.error = String::new();
                self.records.insert(i, rec);
                proof {
                    assert(forall|k: int| 0 <= k < before_set.len() && k != i ==> self.records@[k] == before_set[k]);
                    self.lemma_keep_wf(before_set, i as int);
                }
                count = count + 1;
            }
            i = i + 1;
        }
        assert(start.take(start.len() as int) =~= start);
        count
    }

    /// Requeues failed records now.
    pub fn retry(&mut self, id: Option<i64>) -> (r: usize)
        requires
            old(self).wf(),
        ensures
            final(self).wf(),
            exists|now: i64| valid_time(now as int) && forall|k: int| 0 <= k < old(self).records_view().len() ==> if retried(old(self).records_view()[k], id) {
                requeued_record(#[trigger] final(self).records_view()[k], old(self).records_view()[k], now)
            } else {
                final(self).records_view()[k] == old(self).records_view()[k]
            },
            final(self).records_view().len() == old(self).records_view().len(),
            r == count_retried(old(self).records_view(), id),
    {
        let now = unix_now();
        self.retry_at(id, now)
    }

    /// Deletes the history (sent, failed and suppressed records); returns how
    /// many records were deleted.
    pub fn clear_history(&mut self) -> (r: usize)
        requires
            old(self).wf(),
        ensures
            final(self).wf(),
            final(self).next_id_view() == old(self).next_id_view(),
            final(self).records_view() == pending_only(old(self).records_view()),
            r == old(self).records_view().len() - pending_only(old(self).records_view()).len(),
    {
        let ghost start = self.records@;
        let mut rest: Vec<EventRecord> = Vec::new();
        std::mem::swap(&mut rest, &mut self.records);
        assert(rest@ == start);
        let mut kept: Vec<EventRecord> = Vec::new();
        let mut i: usize = 0;
        let n = rest.len();
        while i < n
            invariant
                n == start.len(),
                i <= n,
                rest@ == start.subrange(i as int, n as int),
                kept@ == pending_only(start.take(i as int)),
                kept@.len() <= i,
            decreases n - i,
        {
            assert(start.take(i + 1).drop_last() =~= start.take(i as int));
            let rec = rest.remove(0);
            assert(rec == start[i as int]);
            assert(rest@ =~= start.subrange(i + 1, n as int));
            if rec.status == EventStatus::Queued || rec.status == EventStatus::Retrying || rec.status == EventStatus::Sending {
                kept.push(rec);
            }
            i = i + 1;
        }
        assert(start.take(n as int) =~= start);
        proof {
            lemma_pending_only_sub(start);
            lemma_pending_only_wf(start, self.next_id);
        }
        let removed = n - kept.len();
        self.records = kept;
        removed
    }

    /// How many records have each status.
    pub fn counts(&self) -> (r: EventCounts)
        ensures
            r.queued == sat_u32(count_status(self.records_view(), EventStatus::Queued)),
            r.sending == sat_u32(count_status(self.records_view(), EventStatus::Sending)),
            r.retrying == sat_u32(count_status(self.records_view(), EventStatus::Retrying)),
            r.sent == sat_u32(count_status(self.records_view(), EventStatus::Sent)),
            r.failed == sat_u32(count_status(self.records_view(), EventStatus::Failed)),
            r.suppressed == sat_u32(count_status(self.records_view(), EventStatus::Suppressed)),
    {
        EventCounts {
            queued: self.count_of(EventStatus::Queued),
            sending: self.count_of(EventStatus::Sending),
            retrying: self.count_of(EventStatus::Retrying),
            sent: self.count_of(EventStatus::Sent),
            failed: self.count_of(EventStatus::Failed),
            suppressed: self.count_of(EventStatus::Suppressed),
        }
    }

    fn count_of(&self, s: EventStatus) -> (r: u32)
        ensures
            r == sat_u32(count_status(self.records@, s)),
    {
        let mut c: u64 = 0;
        let mut i: usize = 0;
        while i < self.records.len()
            invariant
                i <= self.records@.len(),
                c == count_status(self.records@.take(i as int), s),
                c <= i,
            decreases self.records.len() - i,
        {
            assert(self.records@.take(i + 1).drop_last() =~= self.records@.take(i as int));
            if self.records[i].status == s {
                c = c + 1;
            }
            i = i + 1;
        }
        assert(self.records@.take(self.records.len() as int) =~= self.records@);
        if c > u32::MAX as u64 {
            u32::MAX
        } else {
            c as u32
        }
    }

    /// The newest records (at most `limit`, and never more than 500), with
    /// the given status if one is given, newest first.
    pub fn list(&self, limit: u32, status: Option<EventStatus>) -> (out: Vec<EventRecord>)
        requires
            self.wf(),
        ensures
            list_rel(self.records_view(), out@, status, if limit < 500 {
                limit as nat
            } else {
                500nat
            }),
    {
        let cap: u32 = if limit < 500 { limit } else { 500 };
        let idx = select(&self.records, &Filter::Status(status), false, cap as usize);
        let ghost iv = ints(idx@);
        let mut out: Vec<EventRecord> = Vec::new();
        let mut j: usize = 0;
        while j < idx.len()
            invariant
                j <= idx.len(),
                iv == ints(idx@),
                is_selection(self.records@, Filter::Status(status), false, cap as nat, iv),
                out@.len() == j,
                forall|k: int| 0 <= k < j ==> same_record(#[trigger] out@[k], self.records@[iv[k]]),
            decreases idx.len() - j,
        {
            let i = idx[j];
            assert(iv[j as int] == i as int);
            out.push(copy_record(&self.records[i]));
            j = j + 1;
        }
        out
    }
}

/// `out` are copies of the first `cap` records with the given status (any,
/// when none is given), newest first.
pub open spec fn list_rel(rs: Seq<EventRecord>, out: Seq<EventRecord>, status: Option<EventStatus>, cap: nat) -> bool {
    exists|idx: Seq<int>|
        #[trigger] is_selection(rs, Filter::Status(status), false, cap, idx) && out.len() == idx.len()
            && forall|k: int| 0 <= k < idx.len() ==> same_record(#[trigger] out[k], rs[idx[k]])
}

/// The position of the record `id`.
pub open spec fn find_spec(rs: Seq<EventRecord>, id: i64) -> Option<int> {
    if exists|i: int| 0 <= i < rs.len() && rs[i].id == id {
        Some(choose|i: int| 0 <= i < rs.len() && rs[i].id == id)
    } else {
        None
    }
}

proof fn lemma_find_none(rs: Seq<EventRecord>, id: i64)
    requires
        forall|i: int| 0 <= i < rs.len() ==> rs[i].id != id,
    ensures
        find_spec(rs, id) is None,
{
}

proof fn lemma_find_some(rs: Seq<EventRecord>, id: i64, i: int)
    requires
        0 <= i < rs.len(),
        rs[i].id == id,
        forall|a: int, b: int| 0 <= a < rs.len() && 0 <= b < rs.len() && a != b ==> #[trigger] rs[a].id != #[trigger] rs[b].id,
    ensures
        find_spec(rs, id) == Some(i),
{
    let j = choose|j: int| 0 <= j < rs.len() && rs[j].id == id;
    if j != i {
        assert(rs[j].id != rs[i].id);
    }
}

proof fn lemma_pending_only_wf(rs: Seq<EventRecord>, next_id: i64)
    requires
        wf_records(rs, next_id),
    ensures
        wf_records(pending_only(rs), next_id),
    decreases rs.len(),
{
    if rs.len() > 0 {
        let d = rs.drop_last();
        assert forall|a: int, b: int| 0 <= a < d.len() && 0 <= b < d.len() && a != b implies #[trigger] d[a].id != #[trigger] d[b].id
            && d[a].event_key@ != d[b].event_key@ by {
            assert(d[a] == rs[a] && d[b] == rs[b]);
        }
        assert forall|a: int| 0 <= a < d.len() implies 0 < #[trigger] d[a].id < next_id by {
            assert(d[a] == rs[a]);
        }
        lemma_pending_only_wf(d, next_id);
        lemma_pending_only_sub(d);
        let p = pending_only(d);
        if is_pending(rs.last()) {
            let q = pending_only(rs);
            assert(q == p.push(rs.last()));
            assert forall|a: int, b: int| 0 <= a < q.len() && 0 <= b < q.len() && a != b implies #[trigger] q[a].id != #[trigger] q[b].id
                && q[a].event_key@ != q[b].event_key@ by {
                if a < p.len() && b < p.len() {
                    assert(q[a] == p[a] && q[b] == p[b]);
                } else if a < p.len() {
                    let j = choose|j: int| 0 <= j < d.len() && #[trigger] p[a] == d[j];
                    assert(d[j] == rs[j]);
                    assert(rs[j].id != rs[rs.len() - 1].id);
                } else {
                    let j = choose|j: int| 0 <= j < d.len() && #[trigger] p[b] == d[j];
                    assert(d[j] == rs[j]);
                    assert(rs[j].id != rs[rs.len() - 1].id);
                }
            }
            assert forall|a: int| 0 <= a < q.len() implies 0 < #[trigger] q[a].id < next_id by {
                if a < p.len() {
                    assert(q[a] == p[a]);
                }
            }
        }
    }
}

proof fn lemma_pending_only_sub(rs: Seq<EventRecord>)
    ensures
        pending_only(rs).len() <= rs.len(),
        forall|k: int| 0 <= k < pending_only(rs).len() ==> exists|j: int| 0 <= j < rs.len() && #[trigger] pending_only(rs)[k] == rs[j],
    decreases rs.len(),
{
    if rs.len() > 0 {
        lemma_pending_only_sub(rs.drop_last());
        let p = pending_only(rs.drop_last());
        assert forall|k: int| 0 <= k < pending_only(rs).len() implies exists|j: int| 0 <= j < rs.len() && #[trigger] pending_only(rs)[k] == rs[j] by {
            if k < p.len() {
                let j = choose|j: int| 0 <= j < rs.drop_last().len() && p[k] == rs.drop_last()[j];
                assert(rs[j] == rs.drop_last()[j]);
            } else {
                assert(pending_only(rs)[k] == rs[rs.len() - 1]);
            }
        }
    }
}

/// Enqueueing a notification whose event key is already stored changes
/// nothing: the second enqueue answers the first one's id and `false`.
pub proof fn lemma_enqueue_deduplicates(
    a: Seq<EventRecord>,
    na: i64,
    b: Seq<EventRecord>,
    nb: i64,
    c: Seq<EventRecord>,
    nc: i64,
    n: Notification,
    m: Notification,
    p: Seq<char>,
    q: Seq<char>,
    t1: i64,
    t2: i64,
    r1: (i64, bool),
    r2: (i64, bool),
)
    requires
        wf_records(b, nb),
        enqueue_rel(a, na, b, nb, n, p, t1, r1),
        enqueue_rel(b, nb, c, nc, m, q, t2, r2),
        m.event_key@ == n.event_key@,
    ensures
        !r2.1,
        r2.0 == r1.0,
        c == b,
        nc == nb,
{
    let key = n.event_key@;
    if has_key(a, key) {
        let i = choose|i: int| 0 <= i < a.len() && a[i].event_key@ == key && a[i].id == r1.0;
        assert(has_key(b, key));
        let j = choose|j: int| 0 <= j < b.len() && b[j].event_key@ == key && b[j].id == r2.0;
        if i != j {
            assert(b[i].id != b[j].id);
        }
    } else {
        let last = b.len() - 1;
        assert(b[last] == b.last());
        assert(has_key(b, key));
        let j = choose|j: int| 0 <= j < b.len() && b[j].event_key@ == key && b[j].id == r2.0;
        if j != last {
            assert(b[j].id != b[last].id);
        }
    }
}

/// A record handed out for delivery is not handed out again by a second
/// claim at the same moment: it is being delivered, and not yet abandoned.
pub proof fn lemma_claim_not_repeated(
    a: Seq<EventRecord>,
    b: Seq<EventRecord>,
    c: Seq<EventRecord>,
    out1: Seq<EventRecord>,
    out2: Seq<EventRecord>,
    l1: nat,
    l2: nat,
    now: i64,
)
    requires
        forall|i: int, j: int| 0 <= i < b.len() && 0 <= j < b.len() && i != j ==> #[trigger] b[i].id != #[trigger] b[j].id,
        claim_rel(a, b, out1, l1, now),
        claim_rel(b, c, out2, l2, now),
    ensures
        forall|k1: int, k2: int| 0 <= k1 < out1.len() && 0 <= k2 < out2.len() ==> #[trigger] out1[k1].id != #[trigger] out2[k2].id,
{
    let (mid1, idx1) = choose|mid: Seq<EventRecord>, idx: Seq<int>| {
        &&& mid.len() == a.len()
        &&& forall|k: int| 0 <= k < a.len() ==> recovered(#[trigger] mid[k], a[k], now as int)
        &&& is_selection(mid, Filter::Due(now), true, l1, idx)
        &&& out1.len() == idx.len()
        &&& forall|k: int| 0 <= k < idx.len() ==> same_record(#[trigger] out1[k], mid[idx[k]])
        &&& b.len() == a.len()
        &&& forall|k: int| 0 <= k < b.len() ==> if idx.contains(k) {
            restatused(#[trigger] b[k], mid[k], EventStatus::Sending, now)
        } else {
            b[k] == mid[k]
        }
    };
    let (mid2, idx2) = choose|mid: Seq<EventRecord>, idx: Seq<int>| {
        &&& mid.len() == b.len()
        &&& forall|k: int| 0 <= k < b.len() ==> recovered(#[trigger] mid[k], b[k], now as int)
        &&& is_selection(mid, Filter::Due(now), true, l2, idx)
        &&& out2.len() == idx.len()
        &&& forall|k: int| 0 <= k < idx.len() ==> same_record(#[trigger] out2[k], mid[idx[k]])
        &&& c.len() == b.len()
        &&& forall|k: int| 0 <= k < c.len() ==> if idx.contains(k) {
            restatused(#[trigger] c[k], mid[k], EventStatus::Sending, now)
        } else {
            c[k] == mid[k]
        }
    };
    assert forall|k1: int, k2: int| 0 <= k1 < out1.len() && 0 <= k2 < out2.len() implies #[trigger] out1[k1].id != #[trigger] out2[k2].id by {
        let p1 = idx1[k1];
        let p2 = idx2[k2];
        assert(idx1.contains(p1));
        assert(restatused(b[p1], mid1[p1], EventStatus::Sending, now));
        assert(recovered(mid2[p1], b[p1], now as int));
        assert(selects(Filter::Due(now), mid2[p2]));
        if p1 == p2 {
            assert(mid2[p1] == b[p1]);
            assert(false);
        }
        assert(out1[k1].id == b[p1].id);
        assert(out2[k2].id == mid2[p2].id);
        assert(mid2[p2].id == b[p2].id);
    }
}

/// Every record has exactly one status: the six counts add up to the number
/// of records.
pub proof fn lemma_counts_cover_all(rs: Seq<EventRecord>)
    ensures
        count_status(rs, EventStatus::Queued) + count_status(rs, EventStatus::Sending) + count_status(rs, EventStatus::Retrying)
            + count_status(rs, EventStatus::Sent) + count_status(rs, EventStatus::Failed) + count_status(rs, EventStatus::Suppressed)
            == rs.len(),
    decreases rs.len(),
{
    if rs.len() > 0 {
        lemma_counts_cover_all(rs.drop_last());
    }
}

/// Clearing the history keeps every pending record and leaves no sent,
/// failed or suppressed one.
pub proof fn lemma_clear_history_counts(rs: Seq<EventRecord>, s: EventStatus)
    ensures
        count_status(pending_only(rs), s) == if s == EventStatus::Queued || s == EventStatus::Retrying || s == EventStatus::Sending {
            count_status(rs, s)
        } else {
            0
        },
    decreases rs.len(),
{
    if rs.len() > 0 {
        lemma_clear_history_counts(rs.drop_last(), s);
        if is_pending(rs.last()) {
            let p = pending_only(rs.drop_last());
            assert(pending_only(rs) == p.push(rs.last()));
            assert(pending_only(rs).drop_last() =~= p);
        }
    }
}

/// A notification that is newly queued at `now` makes queue processing
/// useful at once: the delay until the next due record is zero.
pub proof fn lemma_enqueued_is_due_now(
    a: Seq<EventRecord>,
    na: i64,
    b: Seq<EventRecord>,
    nb: i64,
    n: Notification,
    p: Seq<char>,
    now: i64,
    r: (i64, bool),
)
    requires
        enqueue_rel(a, na, b, nb, n, p, now, r),
        r.1,
        !n.suppressed,
    ensures
        delay_spec(b, now as int) == Some(0u64),
{
    assert(b.drop_last() == a);
    assert(is_pending(b.last()));
    assert(due_time(b.last()) == now as int);
    match min_due(b) {
        Some(d) => {
            assert(d <= now as int);
        },
        None => {},
    }
}

/// A failed delivery that may be retried is not due before its backoff delay
/// has passed, and is due once it has.
pub proof fn lemma_failed_waits_for_backoff(r: EventRecord, o: EventRecord, error: Seq<char>, retry_limit: u32, now: i64)
    requires
        failed_record(r, o, error, retry_limit, now),
        r.attempts < retry_limit,
    ensures
        forall|t: int| t < now + backoff(r.attempts as int) ==> !is_due(r, t),
        is_due(r, now + backoff(r.attempts as int)),
{
}

/// A failed record that is retried at `now` is due at `now`.
pub proof fn lemma_retried_is_due(r: EventRecord, o: EventRecord, now: i64)
    requires
        requeued_record(r, o, now),
    ensures
        is_due(r, now as int),
{
}

} // verus!