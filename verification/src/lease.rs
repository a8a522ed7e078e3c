//! Taking accounts for requests, and giving them back.
use vstd::prelude::*;
use crate::routing::{cooled_down, exhausted, is_exhausted, CodexWindow, Moment};

verus! {

/// What an account is doing. Points in time are milliseconds since 1970.
#[derive(Debug)]
pub struct AccountLoad {
    pub inflight: i64,
    pub last_selected_at: Option<i64>,
    pub last_request_at: Option<i64>,
    pub cooldown_until: Moment,
    pub cooldown_reason: Option<String>,
}

/// Whether a window is used up.
pub open spec fn any_exhausted(windows: Seq<CodexWindow>, now: i64) -> bool {
    exists|i: int| 0 <= i < windows.len() && exhausted(#[trigger] windows[i], now)
}

/// Whether an account can be taken.
pub open spec fn available(
    load: AccountLoad,
    active: bool,
    windows: Seq<CodexWindow>,
    now: i64,
) -> bool {
    active && cooled_down(load.cooldown_until, now) && !any_exhausted(windows, now)
}

/// An account after it was taken.
pub open spec fn acquired(load: AccountLoad, now: i64) -> AccountLoad {
    AccountLoad {
        inflight: (load.inflight + 1) as i64,
        last_selected_at: Some(now),
        last_request_at: load.last_request_at,
        cooldown_until: Moment::Missing,
        cooldown_reason: None,
    }
}

/// An account after it was given back: never less than nothing is in flight.
pub open spec fn given_back(load: AccountLoad) -> AccountLoad {
    AccountLoad {
        inflight: if load.inflight < 1 {
            0
        } else {
            (load.inflight - 1) as i64
        },
        ..load
    }
}

/// An account that is taken and given back has as much in flight as before.
pub proof fn given_back_as_taken(load: AccountLoad, now: i64)
    requires
        0 <= load.inflight < i64::MAX,
    ensures
        given_back(acquired(load, now)).inflight == load.inflight,
        given_back(acquired(load, now)).last_request_at == load.last_request_at,
{
}

fn has_exhausted(windows: &Vec<CodexWindow>, now: i64) -> (r: bool)
    ensures
        r == any_exhausted(windows@, now),
{
    let mut i: usize = 0;
    while i < windows.len()
        invariant
            i <= windows.len(),
            forall|k: int| 0 <= k < i ==> !exhausted(#[trigger] windows@[k], now),
        decreases windows.len() - i,
    {
        if is_exhausted(&windows[i], now) {
            assert(exhausted(windows@[i as int], now));
            return true;
        }
        i += 1;
    }
    false
}

/// An account that was taken where it was available.
pub open spec fn taken(load: AccountLoad, now: i64) -> AccountLoad {
    AccountLoad {
        cooldown_reason: if load.cooldown_until is At {
            None
        } else {
            load.cooldown_reason
        },
        ..acquired(load, now)
    }
}

/// An account that was given back after a request.
pub open spec fn released(load: AccountLoad, now: i64) -> AccountLoad {
    AccountLoad { last_request_at: Some(now), ..given_back(load) }
}

impl AccountLoad {
    /// Takes an account that was selected: any cooldown is over.
    pub fn acquire(&mut self, now: i64)
        requires
            old(self).inflight < i64::MAX,
        ensures
            *final(self) == acquired(*old(self), now),
    {
        self.inflight = self.inflight + 1;
        self.last_selected_at = Some(now);
        self.cooldown_until = Moment::Missing;
        self.cooldown_reason = None;
    }

    /// Takes an account that a session is bound to, provided that it can still be used. A cooldown
    /// that is over is forgotten, one that is not keeps the account from being taken.
    pub fn acquire_if_available(&mut self, active: bool, windows: &Vec<CodexWindow>, now: i64) -> (r:
        bool)
        requires
            old(self).inflight < i64::MAX,
        ensures
            r == available(*old(self), active, windows@, now),
            !r ==> *final(self) == *old(self),
            r ==> *final(self) == (AccountLoad {
                cooldown_reason: if old(self).cooldown_until is At {
                    None
                } else {
                    old(self).cooldown_reason
                },
                ..acquired(*old(self), now)
            }),
            r ==> *final(self) == taken(*old(self), now),
    {
        let cooled = match self.cooldown_until {
            Moment::Missing => true,
            Moment::Unreadable => false,
            Moment::At(until) => until <= now,
        };
        if !active || !cooled || has_exhausted(windows, now) {
            return false;
        }
        self.inflight = self.inflight + 1;
        self.last_selected_at = Some(now);
        if let Moment::At(_) = self.cooldown_until {
            self.cooldown_until = Moment::Missing;
            self.cooldown_reason = None;
        }
        true
    }

    /// Gives an account back after a request.
    pub fn release(&mut self, now: i64)
        ensures
            *final(self) == (AccountLoad { last_request_at: Some(now), ..given_back(*old(self)) }),
            *final(self) == released(*old(self), now),
    {
        self.release_reservation();
        self.last_request_at = Some(now);
    }

    /// Gives an account back that was taken to set a connection up: no request was made.
    pub fn release_reservation(&mut self)
        ensures
            *final(self) == given_back(*old(self)),
    {
        self.inflight = if self.inflight < 1 {
            0
        } else {
            self.inflight - 1
        };
    }

    /// Nothing is in flight when the daemon starts.
    pub fn reset_inflight(&mut self)
        ensures
            *final(self) == (AccountLoad { inflight: 0, ..*old(self) }),
    {
        self.inflight = 0;
    }
}

/// How many milliseconds to wait before an account is given back once more, where it could not be.
pub open spec fn retry_wait(attempt: int) -> Option<int> {
    if attempt < 2 {
        Some(25 * (attempt + 1))
    } else {
        None
    }
}

/// How long to wait before giving an account back is tried again, after the first attempts fail; not
/// at all after the third.
pub fn release_retry_ms(attempt: u64) -> (r: Option<u64>)
    ensures
        match r {
            Some(n) => retry_wait(attempt as int) == Some(n as int),
            None => retry_wait(attempt as int) is None,
        },
        r == if attempt < 2 {
            Some((25 * (attempt + 1)) as u64)
        } else {
            None
        },
{
    if attempt < 2 {
        Some(25 * (attempt + 1))
    } else {
        None
    }
}

/// An account can be taken exactly where it is active, its cooldown is over or it has none, and no
/// window of it is used up with its reset still ahead or unknown.
pub proof fn accounts_are_taken_where_they_can_serve(
    load: AccountLoad,
    active: bool,
    windows: Seq<CodexWindow>,
    now: i64,
)
    ensures
        available(load, active, windows, now) <==> {
            &&& active
            &&& load.cooldown_until is Missing || (load.cooldown_until is At
                && load.cooldown_until->At_0 <= now)
            &&& forall|i: int|
                #![trigger windows[i]]
                0 <= i < windows.len() ==> {
                    ||| windows[i].used_percent is None
                    ||| windows[i].used_percent->0 < 0x4059_0000_0000_0000
                    ||| windows[i].used_percent->0 > 0x7ff0_0000_0000_0000
                    ||| windows[i].reset_at is At && windows[i].reset_at->At_0 <= now
                }
        },
{
    if available(load, active, windows, now) {
        assert forall|i: int| #![trigger windows[i]] 0 <= i < windows.len() implies {
            ||| windows[i].used_percent is None
            ||| windows[i].used_percent->0 < 0x4059_0000_0000_0000
            ||| windows[i].used_percent->0 > 0x7ff0_0000_0000_0000
            ||| windows[i].reset_at is At && windows[i].reset_at->At_0 <= now
        } by {
            assert(!exhausted(windows[i], now));
        }
    }
}

/// Taking an account counts one request more, notes the time, ends any cooldown, and leaves the time of
/// its last request as it is.
pub proof fn taking_counts_one_more(load: AccountLoad, now: i64)
    requires
        load.inflight < i64::MAX,
    ensures
        acquired(load, now).inflight == load.inflight + 1,
        acquired(load, now).last_selected_at == Some(now),
        acquired(load, now).cooldown_until is Missing,
        acquired(load, now).cooldown_reason is None,
        acquired(load, now).last_request_at == load.last_request_at,
{
}

/// Giving an account back counts one request less, never less than none, and changes nothing else.
pub proof fn giving_back_counts_one_less(load: AccountLoad)
    ensures
        load.inflight >= 1 ==> given_back(load).inflight == load.inflight - 1,
        load.inflight <= 0 ==> given_back(load).inflight == 0,
        given_back(load).last_selected_at == load.last_selected_at,
        given_back(load).last_request_at == load.last_request_at,
        given_back(load).cooldown_until == load.cooldown_until,
        given_back(load).cooldown_reason == load.cooldown_reason,
{
}

/// An account that is taken has one request more, was selected now and has no cooldown; the reason for a
/// cooldown that is over goes with it.
pub proof fn taken_accounts_have_no_cooldown(load: AccountLoad, now: i64)
    requires
        load.inflight < i64::MAX,
    ensures
        taken(load, now).inflight == load.inflight + 1,
        taken(load, now).last_selected_at == Some(now),
        taken(load, now).cooldown_until is Missing,
        load.cooldown_until is At ==> taken(load, now).cooldown_reason is None,
        taken(load, now).last_request_at == load.last_request_at,
{
}

/// Giving back undoes taking, but for the times that it notes.
pub proof fn giving_back_undoes_taking(load: AccountLoad, now: i64, later: i64)
    requires
        0 <= load.inflight < i64::MAX,
    ensures
        released(acquired(load, now), later).inflight == load.inflight,
        released(acquired(load, now), later).last_selected_at == Some(now),
        released(load, later).last_request_at == Some(later),
        given_back(acquired(load, now)).inflight == load.inflight,
{
}

/// An account that cannot be given back is tried again after 25 milliseconds and after 50, and then no
/// more.
pub proof fn giving_back_is_tried_three_times(attempt: int)
    ensures
        retry_wait(0) == Some(25int),
        retry_wait(1) == Some(50int),
        attempt >= 2 ==> retry_wait(attempt) is None,
{
}

} // verus!
