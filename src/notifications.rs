use vstd::prelude::*;

use crate::config::NotificationConfig;
use crate::model::ScoredTx;

verus! {

/// Decides when a desktop notification is due, with a cooldown between two.
#[derive(Debug)]
pub struct Notifier {
    enabled: bool,
    min_score: u32,
    cooldown_seconds: u64,
    last_sent: Option<i64>,
}

/// Whether the cooldown has passed at `now` since `last` (always, if none was sent).
pub open spec fn cooldown_passed(last: Option<i64>, now: i64, cooldown: u64) -> bool {
    match last {
        Some(prev) => now - prev >= cooldown,
        None => true,
    }
}

/// A notification decision at `now` for a score: due exactly when the
/// notifier is enabled, the score reaches the minimum and the cooldown has
/// passed; when due, `now` becomes the last sending time; nothing else changes.
pub open spec fn notified(before: Notifier, after: Notifier, score: u32, now: i64, r: bool) -> bool {
    &&& r == (before.enabled() && score >= before.min_score() && cooldown_passed(before.last_sent(), now, before.cooldown()))
    &&& after.last_sent() == if r { Some(now) } else { before.last_sent() }
    &&& after.enabled() == before.enabled()
    &&& after.min_score() == before.min_score()
    &&& after.cooldown() == before.cooldown()
}

impl Notifier {
    pub closed spec fn enabled(&self) -> bool {
        self.enabled
    }

    pub closed spec fn min_score(&self) -> u32 {
        self.min_score
    }

    pub closed spec fn cooldown(&self) -> u64 {
        self.cooldown_seconds
    }

    pub closed spec fn last_sent(&self) -> Option<i64> {
        self.last_sent
    }

    pub fn new(config: &NotificationConfig) -> (r: Notifier)
        ensures
            r.enabled() == config.enabled,
            r.min_score() == config.min_score,
            r.cooldown() == config.cooldown_seconds,
            r.last_sent().is_none(),
    {
        Notifier {
            enabled: config.enabled,
            min_score: config.min_score,
            cooldown_seconds: config.cooldown_seconds,
            last_sent: None,
        }
    }

    /// Whether a notification is due now for `scored_tx` (recording it as sent when it is).
    pub fn notify(&mut self, scored_tx: &ScoredTx) -> (r: bool)
        ensures
            exists|now: i64| #[trigger] notified(*old(self), *final(self), scored_tx.composite_score, now, r),
    {
        let now = crate::clock::now_unix();
        let r = self.notify_at(scored_tx.composite_score, now);
        assert(notified(*old(self), *self, scored_tx.composite_score, now, r));
        r
    }

    /// Whether a notification is due at `now` for a transaction scored
    /// `score`: the notifier is enabled, the score reaches the minimum and the
    /// cooldown has passed. When due, `now` becomes the last sending time.
    pub fn notify_at(&mut self, score: u32, now: i64) -> (r: bool)
        ensures
            r == (old(self).enabled() && score >= old(self).min_score() && cooldown_passed(
                old(self).last_sent(),
                now,
                old(self).cooldown(),
            )),
            final(self).last_sent() == if r { Some(now) } else { old(self).last_sent() },
            final(self).enabled() == old(self).enabled(),
            final(self).min_score() == old(self).min_score(),
            final(self).cooldown() == old(self).cooldown(),
    {
        if !self.enabled {
            return false;
        }
        if score < self.min_score {
            return false;
        }
        self.check_cooldown_at(now)
    }

    /// Check and update the cooldown at the current time.
    pub fn check_cooldown(&mut self) -> (r: bool)
        ensures
            exists|now: i64| r == cooldown_passed(old(self).last_sent(), now, old(self).cooldown()) && final(self).last_sent() == if r {
                Some(now)
            } else {
                old(self).last_sent()
            },
            final(self).enabled() == old(self).enabled(),
            final(self).min_score() == old(self).min_score(),
            final(self).cooldown() == old(self).cooldown(),
    {
        let now = crate::clock::now_unix();
        self.check_cooldown_at(now)
    }

    /// Whether the cooldown has passed at `now`; if so, `now` becomes the last sending time.
    pub fn check_cooldown_at(&mut self, now: i64) -> (r: bool)
        ensures
            r == cooldown_passed(old(self).last_sent(), now, old(self).cooldown()),
            final(self).last_sent() == if r { Some(now) } else { old(self).last_sent() },
            final(self).enabled() == old(self).enabled(),
            final(self).min_score() == old(self).min_score(),
            final(self).cooldown() == old(self).cooldown(),
    {
        match self.last_sent {
            Some(prev) => {
                let elapsed: i128 = now as i128 - prev as i128;
                if elapsed < self.cooldown_seconds as i128 {
                    return false;
                }
            },
            None => {},
        }
        self.last_sent = Some(now);
        true
    }
}

} // verus!
