//! Timer identifiers and the decisions of the timer task.
use std::collections::HashMap;
use std::ops::AddAssign;
use vstd::prelude::*;
use vstd::std_specs::iter::IteratorSpec;

verus! {

/// Identifies one timer.
#[derive(Clone, Copy, Debug, PartialEq, Eq, Hash, Structural)]
pub struct Id(pub u64);

impl Default for Id {
    fn default() -> (r: Id)
        ensures
            r == Id(0),
    {
        Id(0)
    }
}

impl From<u64> for Id {
    fn from(id: u64) -> (r: Id)
        ensures
            r == Id(id),
    {
        Id(id)
    }
}

impl vstd::std_specs::convert::FromSpecImpl<u64> for Id {
    open spec fn obeys_from_spec() -> bool {
        true
    }

    open spec fn from_spec(v: u64) -> Id {
        Id(v)
    }
}

impl<Rhs> AddAssign<Rhs> for Id where Id: From<Rhs> {
    fn add_assign(&mut self, rhs: Rhs)
        ensures
            <Id as vstd::std_specs::convert::FromSpec<Rhs>>::obeys_from_spec() ==> final(self).0 == (old(self).0 as int + <Id as vstd::std_specs::convert::FromSpec<Rhs>>::from_spec(rhs).0) % 0x1_0000_0000_0000_0000,
    {
        let rhs = Id::from(rhs);
        self.0 = self.0.wrapping_add(rhs.0);
    }
}

/// Advances an iterator.
fn advance<I: Iterator>(iter: &mut I) -> (r: Option<I::Item>)
    ensures
        (*final(iter)).obeys_prophetic_iter_laws() == (*old(iter)).obeys_prophetic_iter_laws(),
        (*final(iter)).obeys_prophetic_iter_laws() ==> if (*old(iter)).remaining().len() > 0 {
            &&& (*final(iter)).remaining() == (*old(iter)).remaining().drop_first()
            &&& r == Some((*old(iter)).remaining()[0])
        } else {
            r is None
        },
{
    iter.next()
}

/// A request to the timer task. Durations are in milliseconds.
#[derive(Clone, Copy, Debug, PartialEq, Eq, Structural)]
pub enum MessageIn {
    /// Start (or restart) the timer, to expire after the duration.
    Start(Id, u64),
    /// Cancel the timer, if it is running.
    Cancel(Id),
}

/// A report of the timer task.
#[derive(Clone, Copy, Debug, PartialEq, Eq, Structural)]
pub enum MessageOut {
    TimerExpired(Id),
}

/// The running timers of the timer task, each with the time it expires at (in milliseconds on
/// the task's clock).
pub struct Timers {
    active: HashMap<u64, u64>,
}

impl View for Timers {
    type V = Map<u64, u64>;

    closed spec fn view(&self) -> Map<u64, u64> {
        self.active@
    }
}

/// The running timers that have not expired at `now`.
pub open spec fn pending_at(timers: Map<u64, u64>, now: int) -> Map<u64, u64> {
    Map::new(|id: u64| timers.contains_key(id) && timers[id] > now, |id: u64| timers[id])
}

/// The earliest time at which one of the running timers expires, if one runs.
pub open spec fn is_earliest(timers: Map<u64, u64>, when: Option<u64>) -> bool {
    match when {
        None => timers.dom().is_empty(),
        Some(t) => (exists|id: u64| #[trigger] timers.contains_key(id) && timers[id] == t)
            && forall|id: u64| #[trigger] timers.contains_key(id) ==> t <= timers[id],
    }
}

impl Timers {
    pub fn new() -> (r: Timers)
        ensures
            r@ == Map::<u64, u64>::empty(),
    {
        Timers { active: HashMap::new() }
    }

    /// Starts or cancels a timer, at the time `now`.
    pub fn handle_message(&mut self, message: MessageIn, now: u64)
        requires
            message matches MessageIn::Start(_, duration) ==> now + duration <= u64::MAX,
        ensures
            final(self)@ == match message {
                MessageIn::Start(id, duration) => old(self)@.insert(id.0, (now + duration) as u64),
                MessageIn::Cancel(id) => old(self)@.remove(id.0),
            },
    {
        match message {
            MessageIn::Start(id, duration) => {
                self.active.insert(id.0, now + duration);
            },
            MessageIn::Cancel(id) => {
                self.active.remove(&id.0);
            },
        }
    }

    /// Removes the timers that have expired at `now` and returns them, together with the time at
    /// which the first of the others expires.
    pub fn expire(&mut self, now: u64) -> (r: (Vec<Id>, Option<u64>))
        ensures
            final(self)@ == pending_at(old(self)@, now as int),
            r.0@.no_duplicates(),
            forall|id: Id| #[trigger] r.0@.contains(id) <==> old(self)@.contains_key(id.0)
                && old(self)@[id.0] <= now,
            is_earliest(final(self)@, r.1),
    {
        let ghost old_active = self.active@;
        let mut expired: Vec<Id> = Vec::new();
        let mut next: Option<u64> = None;
        let num_timers = self.active.len();
        let mut iter = self.active.iter();
        let ghost all = iter.remaining();
        let mut i: usize = 0;
        while i < num_timers
            invariant
                old_active == self.active@,
                num_timers == all.len() == old_active.dom().len(),
                0 <= i <= num_timers,
                iter.remaining() == all.skip(i as int),
                forall|j: int| 0 <= j < all.len() ==> #[trigger] old_active.contains_key(*all[j].0)
                    && old_active[*all[j].0] == *all[j].1,
                forall|k: u64| #[trigger] old_active.contains_key(k) ==> all.contains((&k, &old_active[k])),
                all.no_duplicates(),
                expired@.no_duplicates(),
                forall|id: Id| #[trigger] expired@.contains(id) <==> exists|j: int| 0 <= j < i && *all[j].0 == id.0 && *all[j].1 <= now,
                next matches None ==> forall|j: int| 0 <= j < i ==> *all[j].1 <= now,
                next matches Some(t) ==> (exists|j: int| 0 <= j < i && #[trigger] *all[j].1 == t && t > now) && forall|j: int| 0 <= j < i && *all[j].1 > now ==> t <= #[trigger] *all[j].1,
            decreases num_timers - i,
        {
            let entry = advance(&mut iter).unwrap();
            let (id, when) = entry;
            proof {
                assert(all.skip(i as int)[0] == all[i as int]);
                assert(all.skip(i as int).drop_first() =~= all.skip(i + 1));
                assert forall|j: int| 0 <= j < i implies *all[j].0 != *id by {
                    if *all[j].0 == *id {
                        assert(old_active.contains_key(*all[j].0));
                        assert(old_active.contains_key(*all[i as int].0));
                        assert(all[j] == all[i as int]);
                    }
                }
            }
            let ghost old_expired = expired@;
            proof {
                assert(*all[i as int].0 == *id && *all[i as int].1 == *when);
            }
            if *when <= now {
                expired.push(Id(*id));
                proof {
                    assert(expired@ == old_expired.push(Id(*id)));
                    assert(!old_expired.contains(Id(*id)));
                }
            } else {
                next = match next {
                    None => Some(*when),
                    Some(t) => Some(if *when < t { *when } else { t }),
                };
            }
            proof {
                assert forall|id2: Id| #[trigger] expired@.contains(id2) implies exists|j: int| 0 <= j < i + 1 && *all[j].0 == id2.0 && *all[j].1 <= now by {
                    if !old_expired.contains(id2) {
                        assert(id2 == Id(*id));
                        assert(*all[i as int].0 == id2.0 && *all[i as int].1 <= now);
                    }
                }
                assert forall|id2: Id| (exists|j: int| 0 <= j < i + 1 && *all[j].0 == id2.0 && *all[j].1 <= now) implies #[trigger] expired@.contains(id2) by {
                    let j = choose|j: int| 0 <= j < i + 1 && *all[j].0 == id2.0 && *all[j].1 <= now;
                    if j < i {
                        assert(old_expired.contains(id2));
                        let k = choose|k: int| 0 <= k < old_expired.len() && old_expired[k] == id2;
                        if *when <= now {
                            assert(expired@ == old_expired.push(Id(*id)));
                            assert(expired@[k] == id2);
                        }
                    } else {
                        assert(*when <= now);
                        assert(expired@ == old_expired.push(Id(*id)));
                        assert(id2 == Id(*id));
                        assert(expired@[expired@.len() - 1] == id2);
                    }
                }
            }
            i += 1;
        }
        proof {
            assert forall|k: u64| #[trigger] old_active.contains_key(k) implies exists|j: int|
                0 <= j < all.len() && *all[j].0 == k && *all[j].1 == old_active[k] by {
                assert(all.contains((&k, &old_active[k])));
                let j = choose|j: int| 0 <= j < all.len() && all[j] == (&k, &old_active[k]);
                assert(*all[j].0 == k && *all[j].1 == old_active[k]);
            }
        }
        let ghost pending = pending_at(old_active, now as int);
        let mut i: usize = 0;
        while i < expired.len()
            invariant
                0 <= i <= expired@.len(),
                expired@.no_duplicates(),
                forall|id: Id| #[trigger] expired@.contains(id) <==> old_active.contains_key(id.0)
                    && old_active[id.0] <= now,
                forall|k: u64| #[trigger] self.active@.contains_key(k) <==> old_active.contains_key(k)
                    && !(exists|j: int| 0 <= j < i && #[trigger] expired@[j].0 == k),
                forall|k: u64| #[trigger] self.active@.contains_key(k) ==> self.active@[k]
                    == old_active[k],
            decreases expired@.len() - i,
        {
            self.active.remove(&expired[i].0);
            i += 1;
        }
        proof {
            assert forall|k: u64| #[trigger] self.active@.contains_key(k) implies pending.contains_key(k) by {
                if old_active[k] <= now {
                    assert(expired@.contains(Id(k)));
                    let j = choose|j: int| 0 <= j < expired@.len() && expired@[j] == Id(k);
                    assert(expired@[j].0 == k);
                }
            }
            assert forall|k: u64| #[trigger] pending.contains_key(k) implies self.active@.contains_key(k) by {
                if exists|j: int| 0 <= j < expired@.len() && #[trigger] expired@[j].0 == k {
                    let j = choose|j: int| 0 <= j < expired@.len() && #[trigger] expired@[j].0 == k;
                    assert(expired@.contains(expired@[j]));
                }
            }
            assert(self.active@ =~= pending);
            assert forall|k: u64| #[trigger] pending.contains_key(k) implies (exists|j: int|
                0 <= j < all.len() && *all[j].0 == k && *all[j].1 == old_active[k] && old_active[k] > now) by {
                assert(old_active.contains_key(k));
            }
            match next {
                None => {
                    if !pending.dom().is_empty() {
                        let k = pending.dom().choose();
                        assert(pending.contains_key(k));
                    }
                },
                Some(t) => {
                    let j = choose|j: int| 0 <= j < all.len() && #[trigger] *all[j].1 == t && t > now;
                    assert(pending.contains_key(*all[j].0));
                    assert forall|k: u64| #[trigger] pending.contains_key(k) implies t <= pending[k] by {
                        let j2 = choose|j2: int| 0 <= j2 < all.len() && *all[j2].0 == k && *all[j2].1 == old_active[k] && old_active[k] > now;
                        assert(t <= *all[j2].1);
                    }
                },
            }
        }
        (expired, next)
    }
}

} // verus!
