//! Delivery of due notifications: the credentials a delivery needs, the
//! notification a stored record stands for, and how each outcome is recorded
//! in the queue.

use vstd::prelude::*;
use crate::error::{message_spec, CoreError, CoreResult};
use crate::notification::Notification;
use crate::security::{get_secret, ok_or_credential, BARK_KEY_ACCOUNT, ENCRYPTION_KEY_ACCOUNT};
use crate::settings::AppSettings;
use crate::store::{claim_rel, failed_record, find_spec, sent_record, changed_at, valid_time, EventRecord, EventStore};
use crate::text::same_text;

verus! {

/// The outcome of one delivery.
pub struct DispatchResult {
    pub id: i64,
    pub sent: bool,
    pub error: String,
}

/// The credentials a delivery run needs, from the credential store's
/// readings of the device key (`bark`) and, once a device key was found and
/// only with encryption enabled, of the encryption key (`encryption`): a
/// failed reading fails; no stored device key means there is nothing to
/// deliver with (`None`).
pub open spec fn dispatch_rel(
    bark: CoreResult<Option<String>>,
    encryption: CoreResult<Option<String>>,
    enabled: bool,
    r: CoreResult<Option<(String, Option<String>)>>,
) -> bool {
    match bark {
        Err(x) => r == Err::<Option<(String, Option<String>)>, CoreError>(x),
        Ok(None) => r matches Ok(None),
        Ok(Some(k)) => if !enabled {
            r matches Ok(Some(c)) && c.0 == k && c.1 is None
        } else {
            match encryption {
                Err(x) => r == Err::<Option<(String, Option<String>)>, CoreError>(x),
                Ok(e) => r matches Ok(Some(c)) && c.0 == k && c.1 == e,
            }
        },
    }
}

/// The delivery credentials for given readings of the store; see
/// `dispatch_rel`.
pub fn dispatch_credentials_from(
    bark: CoreResult<Option<String>>,
    encryption: CoreResult<Option<String>>,
    enabled: bool,
) -> (r: CoreResult<Option<(String, Option<String>)>>)
    ensures
        dispatch_rel(bark, encryption, enabled, r),
{
    let bark_key = match bark? {
        Some(k) => k,
        None => return Ok(None),
    };
    if enabled {
        let e = encryption?;
        Ok(Some((bark_key, e)))
    } else {
        Ok(Some((bark_key, None)))
    }
}

/// Reads the delivery credentials from the credential store; see
/// `dispatch_rel`. The encryption key is read only once a device key was
/// found, and only with encryption enabled.
pub fn dispatch_credentials(settings: &AppSettings) -> (r: CoreResult<Option<(String, Option<String>)>>)
    ensures
        exists|bark: CoreResult<Option<String>>, encryption: CoreResult<Option<String>>|
            ok_or_credential(bark) && ok_or_credential(encryption) && dispatch_rel(
                bark,
                encryption,
                settings.encryption_enabled,
                r,
            ),
        ok_or_credential(r),
        !settings.encryption_enabled ==> match r {
            Ok(Some(c)) => c.1 is None,
            _ => true,
        },
{
    let bark = get_secret(BARK_KEY_ACCOUNT);
    let found = match &bark {
        Ok(Some(_)) => true,
        _ => false,
    };
    let encryption = if found && settings.encryption_enabled {
        get_secret(ENCRYPTION_KEY_ACCOUNT)
    } else {
        Ok(None)
    };
    let ghost b = bark;
    let ghost e = encryption;
    let r = dispatch_credentials_from(bark, encryption, settings.encryption_enabled);
    assert(ok_or_credential(b) && ok_or_credential(e) && dispatch_rel(b, e, settings.encryption_enabled, r));
    r
}

/// The records a delivery run claims: none when there are no credentials to
/// deliver with, and then the queue is left as it is; else the due records,
/// claimed as `EventStore::claim_due` does.
pub fn claim_for_delivery(
    store: &mut EventStore,
    credentials: &Option<(String, Option<String>)>,
    limit: u32,
) -> (out: Vec<EventRecord>)
    requires
        old(store).wf(),
    ensures
        final(store).wf(),
        credentials is None ==> out@.len() == 0 && final(store).records_view() == old(store).records_view()
            && final(store).next_id_view() == old(store).next_id_view(),
        credentials is Some ==> exists|now: i64|
            valid_time(now as int) && claim_rel(old(store).records_view(), final(store).records_view(), out@, limit as nat, now),
{
    match credentials {
        None => Vec::new(),
        Some(_) => store.claim_due(limit),
    }
}

/// The notification to push for a record: the notification stored with it,
/// addressed by the record's event key when it has no Bark id of its own.
pub fn notification_for(record: &EventRecord, stored: Notification) -> (r: Notification)
    ensures
        r.bark_id@ == (if stored.bark_id@.len() == 0 {
            record.event_key@
        } else {
            stored.bark_id@
        }),
        r == (Notification { bark_id: r.bark_id, ..stored }),
{
    let mut n = stored;
    proof {
        reveal_strlit("");
    }
    if same_text(n.bark_id.as_str(), "") {
        assert(n.bark_id@.len() == 0);
        n.bark_id = record.event_key.clone();
    } else {
        assert(n.bark_id@.len() != 0) by {
            if n.bark_id@.len() == 0 {
                assert(n.bark_id@ =~= ""@);
            }
        }
    }
    n
}

/// How delivering record `id` at `now` is recorded in the queue, from the
/// records `old` to `new`, and reported (`r`): sent, or failed with the
/// error's message (retried until the retry limit).
pub open spec fn recorded(
    old: Seq<EventRecord>,
    new: Seq<EventRecord>,
    id: i64,
    outcome: CoreResult<()>,
    retry_limit: u32,
    now: i64,
    r: DispatchResult,
) -> bool {
    &&& r.id == id
    &&& r.sent == (outcome is Ok)
    &&& match outcome {
        Ok(()) => r.error@.len() == 0 && match find_spec(old, id) {
            Some(i) => changed_at(old, new, i) && sent_record(new[i], old[i], now),
            None => new == old,
        },
        Err(e) => r.error@ == message_spec(e) && match find_spec(old, id) {
            Some(i) => changed_at(old, new, i) && failed_record(new[i], old[i], message_spec(e), retry_limit, now),
            None => new == old,
        },
    }
}

/// Records the outcome of delivering record `id` at `now`: sent, or failed
/// with the error's message (retried until the retry limit); reports it.
pub fn record_outcome_at(store: &mut EventStore, id: i64, outcome: &CoreResult<()>, retry_limit: u32, now: i64) -> (r:
    DispatchResult)
    requires
        old(store).wf(),
        crate::store::valid_time(now as int),
    ensures
        final(store).wf(),
        final(store).next_id_view() == old(store).next_id_view(),
        recorded(old(store).records_view(), final(store).records_view(), id, *outcome, retry_limit, now, r),
{
    match outcome {
        Ok(()) => {
            store.mark_sent_at(id, now);
            DispatchResult { id, sent: true, error: String::new() }
        },
        Err(e) => {
            let message = e.message();
            store.mark_failed_at(id, message.as_str(), retry_limit, now);
            DispatchResult { id, sent: false, error: message }
        },
    }
}

/// Records the outcome of delivering record `id` now; see
/// `record_outcome_at`.
pub fn record_outcome(store: &mut EventStore, id: i64, outcome: &CoreResult<()>, retry_limit: u32) -> (r: DispatchResult)
    requires
        old(store).wf(),
    ensures
        final(store).wf(),
        final(store).next_id_view() == old(store).next_id_view(),
        exists|now: i64|
            crate::store::valid_time(now as int) && recorded(
                old(store).records_view(),
                final(store).records_view(),
                id,
                *outcome,
                retry_limit,
                now,
                r,
            ),
{
    let now = crate::store::unix_now();
    record_outcome_at(store, id, outcome, retry_limit, now)
}

} // verus!
