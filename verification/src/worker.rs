//! The delivery worker's per-job bookkeeping.
//!
//! The worker claims jobs, signs and posts each payload, and settles every
//! job by its outcome: a delivered entry is deleted; a failed one is
//! rescheduled under the backoff policy and possibly marked expired. The
//! HTTP call itself happens outside; this module decides what each outcome
//! does to the queue.

use vstd::prelude::*;
use crate::queue::{EntryView, QueueStore, find_entry};
use crate::retry::{backoff_minutes_spec, is_expired_spec, plan_retry};
use crate::sign::{dec_of, sign, signature_of, u64_to_dec};

verus! {

/// How one delivery attempt ended: delivered, or failed with diagnostic
/// text (a non-2xx status, a transport error, a timeout).
pub enum DeliveryOutcome {
    Success,
    Failure { error: Vec<u8> },
}

/// The two headers a webhook call carries beside the payload: the decimal
/// timestamp and the signature over `timestamp.payload`.
pub fn signed_headers(secret: &[u8], now: u64, payload: &[u8]) -> (r: (Vec<u8>, String))
    ensures
        r.0@ == dec_of(now as nat),
        r.1@ == signature_of(secret@, dec_of(now as nat), payload@),
{
    let ts = u64_to_dec(now);
    let sig = sign(secret, ts.as_slice(), payload);
    (ts, sig)
}

/// Settle one claimed job by its outcome.
///
/// Success deletes the entry. Failure advances the attempt counter,
/// records the diagnostic text, reschedules the entry by the capped
/// exponential backoff, and marks it expired exactly when retries are
/// bounded and used up; the entry itself is kept either way. An entry id
/// no longer present changes nothing.
pub fn settle_job(
    store: &mut QueueStore,
    entry_id: i64,
    prev_attempts: i32,
    outcome: DeliveryOutcome,
    max_retries: i32,
    max_delay_minutes: i64,
    now: i64,
)
    requires
        old(store).wf(),
        0 <= prev_attempts < i32::MAX,
        0 <= max_delay_minutes,
        0 <= now,
        now + 60 * max_delay_minutes <= i64::MAX,
    ensures
        final(store).wf(),
        final(store).routes_view() == old(store).routes_view(),
        final(store).next_id == old(store).next_id,
        ({
            let ev = old(store).entries_view();
            match outcome {
                DeliveryOutcome::Success => match find_entry(ev, entry_id) {
                    Some(k) => final(store).entries_view() == ev.remove(k),
                    None => final(store).entries_view() == ev,
                },
                DeliveryOutcome::Failure { error } => match find_entry(ev, entry_id) {
                    Some(k) => final(store).entries_view() == ev.update(
                        k,
                        (EntryView {
                            attempts: (prev_attempts + 1) as i32,
                            last_error: Some(error@),
                            expired: is_expired_spec(
                                prev_attempts + 1,
                                max_retries as int,
                            ),
                            next_attempt_at: (now + 60 * backoff_minutes_spec(
                                (prev_attempts + 1) as nat,
                                max_delay_minutes as int,
                            )) as i64,
                            ..ev[k]
                        }),
                    ),
                    None => final(store).entries_view() == ev,
                },
            }
        }),
{
    match outcome {
        DeliveryOutcome::Success => {
            store.mark_delivered(entry_id);
        },
        DeliveryOutcome::Failure { error } => {
            let plan = plan_retry(prev_attempts, max_retries, max_delay_minutes, now);
            store.mark_retry(entry_id, plan.attempts, error, plan.expired, plan.next_attempt_at);
        },
    }
}

} // verus!
