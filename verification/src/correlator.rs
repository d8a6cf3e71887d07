//! The correlation engine: a stateful grouping of records by audit id.
//!
//! Records sharing an audit id accumulate, in arrival order, in one
//! in-progress group. A group is finalized — removed from the table and
//! handed out as a [`CorrelatedEvent`] — when a configured terminator type
//! arrives, when the group reaches its configured maximum size, or when an
//! idle sweep finds it has gone too long without a new record. A finalized
//! id keeps no state: a late arrival for it starts a new, separate group.
//! When the table is full, a record that would open a new group is handed
//! back instead, so the in-progress count never grows past its bound.

use crate::record::{rt_eq, AuditId, Record, RecordType};
use vstd::prelude::*;

verus! {

/// Tunables of the correlation engine. Instants and durations are
/// milliseconds of the caller's monotonic clock.
pub struct CorrelatorConfig {
    /// A group this long without a new record is force-finalized.
    pub idle_timeout: u64,
    /// A group reaching this many records is finalized at once; at least 1.
    pub max_group_size: usize,
    /// Bound on the number of in-progress groups.
    pub max_groups: usize,
    /// Record types that close a group on arrival.
    pub terminators: Vec<RecordType>,
}

/// The reconstructed group of all records sharing one audit id: one logical
/// audited action. Ordered by arrival; never mutated once finalized.
#[derive(Debug)]
pub struct CorrelatedEvent {
    pub audit_id: AuditId,
    /// Monotonic instant of the first record, for timeout accounting.
    pub first_seen: u64,
    pub records: Vec<Record>,
}

/// An in-progress group plus the bookkeeping needed for idle expiry.
#[derive(Debug)]
pub struct Group {
    pub event: CorrelatedEvent,
    /// Monotonic instant of the latest record.
    pub last_update: u64,
}

/// Why a group was finalized.
#[derive(Debug, Clone, Copy, PartialEq, Eq, Structural)]
pub enum FinalizeReason {
    /// A configured terminator record type arrived.
    Terminator,
    /// The group reached the configured maximum size.
    MaxSize,
    /// An idle sweep found the group expired; the event is incomplete.
    IdleExpired,
}

/// What `ingest` did with a record.
#[derive(Debug)]
pub enum IngestOutcome {
    /// Stored into a group that is still in progress.
    Stored,
    /// The record completed its group, which is handed out here.
    Finalized(CorrelatedEvent, FinalizeReason),
    /// The table is full and the record would open a new group: it is
    /// handed back untouched, so the caller can stall ingestion.
    Saturated(Record),
}

/// Ghost image of one in-progress group.
#[verifier::ext_equal]
pub ghost struct GroupModel {
    pub id: AuditId,
    pub first_seen: u64,
    pub last_update: u64,
    pub records: Seq<Record>,
}

impl View for Group {
    type V = GroupModel;

    open spec fn view(&self) -> GroupModel {
        GroupModel {
            id: self.event.audit_id,
            first_seen: self.event.first_seen,
            last_update: self.last_update,
            records: self.event.records@,
        }
    }
}

/// The ghost images of a group table.
pub open spec fn models(gs: Seq<Group>) -> Seq<GroupModel> {
    gs.map_values(|g: Group| g@)
}

/// Some in-progress group carries this id.
pub open spec fn has_group(gs: Seq<GroupModel>, id: AuditId) -> bool {
    exists|i: int| 0 <= i < gs.len() && gs[i].id == id
}

/// The position of the group carrying this id (meaningful under
/// `distinct_ids` when `has_group` holds).
pub open spec fn idx_of(gs: Seq<GroupModel>, id: AuditId) -> int {
    choose|i: int| 0 <= i < gs.len() && gs[i].id == id
}

/// At most one in-progress group exists per audit id.
pub open spec fn distinct_ids(gs: Seq<GroupModel>) -> bool {
    forall|i: int, j: int| #![trigger gs[i], gs[j]] 0 <= i < j < gs.len() ==> gs[i].id != gs[j].id
}

/// This record type closes a group on arrival.
pub open spec fn is_terminator(terms: Seq<RecordType>, t: RecordType) -> bool {
    exists|i: int| 0 <= i < terms.len() && rt_eq(terms[i], t)
}

/// Appending `r` leaves the group complete: `r` is a terminator, or the
/// group has reached its maximum size.
pub open spec fn completes(cfg: CorrelatorConfig, records_after: Seq<Record>, r: Record) -> bool {
    is_terminator(cfg.terminators@, r.record_type) || records_after.len() >= cfg.max_group_size
}

/// The group extended by one record.
pub open spec fn spec_append(g: GroupModel, r: Record, now: u64) -> GroupModel {
    GroupModel { last_update: now, records: g.records.push(r), ..g }
}

/// A fresh single-record group.
pub open spec fn spec_new_group(r: Record, now: u64) -> GroupModel {
    GroupModel { id: r.audit_id, first_seen: now, last_update: now, records: seq![r] }
}

/// The group table after one record is ingested at instant `now`.
pub open spec fn step_groups(
    cfg: CorrelatorConfig,
    gs: Seq<GroupModel>,
    r: Record,
    now: u64,
) -> Seq<GroupModel> {
    let id = r.audit_id;
    if has_group(gs, id) {
        let i = idx_of(gs, id);
        let g2 = spec_append(gs[i], r, now);
        if completes(cfg, g2.records, r) {
            gs.remove(i)
        } else {
            gs.update(i, g2)
        }
    } else if gs.len() < cfg.max_groups {
        let g = spec_new_group(r, now);
        if completes(cfg, g.records, r) {
            gs
        } else {
            gs.push(g)
        }
    } else {
        gs
    }
}

/// The event value is the image of this group.
pub open spec fn event_matches(ev: CorrelatedEvent, g: GroupModel) -> bool {
    &&& ev.audit_id == g.id
    &&& ev.first_seen == g.first_seen
    &&& ev.records@ == g.records
}

/// What `ingest` must hand out for one record at instant `now`.
pub open spec fn step_outcome(
    cfg: CorrelatorConfig,
    gs: Seq<GroupModel>,
    r: Record,
    now: u64,
    out: IngestOutcome,
) -> bool {
    let id = r.audit_id;
    let reason = if is_terminator(cfg.terminators@, r.record_type) {
        FinalizeReason::Terminator
    } else {
        FinalizeReason::MaxSize
    };
    if has_group(gs, id) {
        let g2 = spec_append(gs[idx_of(gs, id)], r, now);
        if completes(cfg, g2.records, r) {
            out matches IngestOutcome::Finalized(ev, rs) && event_matches(ev, g2) && rs == reason
        } else {
            out matches IngestOutcome::Stored
        }
    } else if gs.len() < cfg.max_groups {
        let g = spec_new_group(r, now);
        if completes(cfg, g.records, r) {
            out matches IngestOutcome::Finalized(ev, rs) && event_matches(ev, g) && rs == reason
        } else {
            out matches IngestOutcome::Stored
        }
    } else {
        out matches IngestOutcome::Saturated(rec) && rec == r
    }
}

/// A group is overdue: its latest record is at least `idle_timeout` old.
pub open spec fn is_idle(g: GroupModel, cfg: CorrelatorConfig, now: u64) -> bool {
    g.last_update + cfg.idle_timeout <= now
}

/// The events are, in order, the images of these groups.
pub open spec fn events_match_groups(evs: Seq<CorrelatedEvent>, gs: Seq<GroupModel>) -> bool {
    &&& evs.len() == gs.len()
    &&& forall|i: int| 0 <= i < evs.len() ==> event_matches(#[trigger] evs[i], gs[i])
}

/// The groups an idle sweep at instant `now` keeps, in order.
pub open spec fn live_groups(gs: Seq<GroupModel>, cfg: CorrelatorConfig, now: u64) -> Seq<
    GroupModel,
> {
    gs.filter(|g: GroupModel| !is_idle(g, cfg, now))
}

/// The groups an idle sweep at instant `now` expires, in order.
pub open spec fn idle_groups(gs: Seq<GroupModel>, cfg: CorrelatorConfig, now: u64) -> Seq<
    GroupModel,
> {
    gs.filter(|g: GroupModel| is_idle(g, cfg, now))
}

/// Is this record type in the configured terminator set?
fn contains_type(terms: &Vec<RecordType>, t: &RecordType) -> (r: bool)
    ensures
        r == is_terminator(terms@, *t),
{
    let n = terms.len();
    let mut i: usize = 0;
    while i < n
        invariant
            0 <= i <= n,
            n == terms@.len(),
            forall|j: int| 0 <= j < i ==> !rt_eq(terms@[j], *t),
        decreases n - i,
    {
        if terms[i].same_type(t) {
            return true;
        }
        i += 1;
    }
    false
}

/// The stateful grouping engine. It exclusively owns all in-progress
/// groups; finalization hands an event out and keeps no state for its id.
pub struct Correlator {
    pub config: CorrelatorConfig,
    pub groups: Vec<Group>,
}

impl View for Correlator {
    type V = Seq<GroupModel>;

    open spec fn view(&self) -> Seq<GroupModel> {
        models(self.groups@)
    }
}

impl Correlator {
    /// Well-formed: a sane size bound, at most one group per id, and no
    /// empty group.
    pub open spec fn wf(self) -> bool {
        &&& self.config.max_group_size >= 1
        &&& distinct_ids(self@)
        &&& forall|i: int| 0 <= i < self@.len() ==> (#[trigger] self@[i]).records.len() >= 1
    }

    /// An empty engine.
    pub fn new(config: CorrelatorConfig) -> (r: Correlator)
        requires
            config.max_group_size >= 1,
        ensures
            r.wf(),
            r@.len() == 0,
            r.config == config,
    {
        let r = Correlator { config, groups: Vec::new() };
        proof {
            assert(r@ =~= Seq::<GroupModel>::empty());
        }
        r
    }

    /// Number of in-progress groups.
    pub fn in_progress(&self) -> (n: usize)
        ensures
            n == self@.len(),
    {
        self.groups.len()
    }

    /// Take one record in at instant `now`. Appends to the record's group
    /// (creating it if absent and the table has room), finalizes the group
    /// at once when the record completes it, and hands the record back when
    /// the table is saturated.
    pub fn ingest(&mut self, r: Record, now: u64) -> (out: IngestOutcome)
        requires
            old(self).wf(),
        ensures
            final(self).wf(),
            final(self).config == old(self).config,
            final(self)@ == step_groups(old(self).config, old(self)@, r, now),
            step_outcome(old(self).config, old(self)@, r, now, out),
    {
        let ghost om = self@;
        let id = r.audit_id;
        let n = self.groups.len();
        let mut i: usize = 0;
        let mut idx: usize = 0;
        let mut found = false;
        while i < n
            invariant
                0 <= i <= n,
                n == self.groups@.len(),
                om == self@,
                !found ==> forall|j: int| 0 <= j < i ==> om[j].id != id,
                found ==> idx < n && om[idx as int].id == id,
            decreases n - i,
        {
            if !found && self.groups[i].event.audit_id == id {
                idx = i;
                found = true;
            }
            i += 1;
        }
        let term = contains_type(&self.config.terminators, &r.record_type);
        if found {
            proof {
                assert(has_group(om, id));
                let c = idx_of(om, id);
                assert(0 <= c < om.len() && om[c].id == id);
                assert(c == idx as int);
            }
            let mut grp = self.groups.remove(idx);
            grp.event.records.push(r);
            grp.last_update = now;
            proof {
                assert(grp@ =~~= spec_append(om[idx as int], r, now));
            }
            let size = grp.event.records.len();
            if term || size >= self.config.max_group_size {
                proof {
                    assert(self@ =~~= om.remove(idx as int));
                }
                let reason = if term {
                    FinalizeReason::Terminator
                } else {
                    FinalizeReason::MaxSize
                };
                IngestOutcome::Finalized(grp.event, reason)
            } else {
                self.groups.insert(idx, grp);
                proof {
                    assert(self@ =~~= om.update(idx as int, spec_append(om[idx as int], r, now)));
                }
                IngestOutcome::Stored
            }
        } else {
            proof {
                assert(!has_group(om, id)) by {
                    if has_group(om, id) {
                        let c = idx_of(om, id);
                        assert(om[c].id == id);
                    }
                }
            }
            if self.groups.len() < self.config.max_groups {
                let mut recs: Vec<Record> = Vec::new();
                recs.push(r);
                let grp = Group {
                    event: CorrelatedEvent { audit_id: id, first_seen: now, records: recs },
                    last_update: now,
                };
                proof {
                    assert(grp@ =~~= spec_new_group(r, now));
                }
                if term || self.config.max_group_size <= 1 {
                    let reason = if term {
                        FinalizeReason::Terminator
                    } else {
                        FinalizeReason::MaxSize
                    };
                    IngestOutcome::Finalized(grp.event, reason)
                } else {
                    self.groups.push(grp);
                    proof {
                        assert(self@ =~~= om.push(spec_new_group(r, now)));
                    }
                    IngestOutcome::Stored
                }
            } else {
                IngestOutcome::Saturated(r)
            }
        }
    }

    /// Periodic idle sweep: remove every group whose latest record is at
    /// least `idle_timeout` old and hand the expired events out, in table
    /// order, as incomplete events.
    pub fn sweep(&mut self, now: u64) -> (expired: Vec<CorrelatedEvent>)
        requires
            old(self).wf(),
        ensures
            final(self).wf(),
            final(self).config == old(self).config,
            final(self)@ == live_groups(old(self)@, old(self).config, now),
            events_match_groups(
                expired@,
                idle_groups(old(self)@, old(self).config, now),
            ),
    {
        let ghost orig: Seq<Group> = self.groups@;
        let ghost om: Seq<GroupModel> = self@;
        let mut kept: Vec<Group> = Vec::new();
        let mut expired: Vec<CorrelatedEvent> = Vec::new();
        let ghost mut k: int = 0;
        proof {
            reveal(Seq::filter);
            assert(om.take(0) =~= Seq::<GroupModel>::empty());
            assert(models(kept@) =~= Seq::<GroupModel>::empty());
            assert(self.groups@ =~= orig.skip(0));
        }
        while self.groups.len() > 0
            invariant
                0 <= k <= orig.len(),
                om == models(orig),
                om.len() == orig.len(),
                self.groups@ == orig.skip(k),
                self.config == old(self).config,
                old(self).wf(),
                om == old(self)@,
                models(kept@) == live_groups(om.take(k), old(self).config, now),
                events_match_groups(
                    expired@,
                    idle_groups(om.take(k), old(self).config, now),
                ),
                distinct_ids(models(kept@)),
                forall|i: int|
                    0 <= i < models(kept@).len() ==> exists|j: int|
                        0 <= j < k && #[trigger] models(kept@)[i] == om[j],
            decreases self.groups@.len(),
    {
            let ghost pk = models(kept@);
            let g = self.groups.remove(0);
            proof {
                assert(orig.skip(k)[0] == orig[k]);
                assert(orig.skip(k).remove(0) =~= orig.skip(k + 1));
                assert(g@ == om[k]);
            }
            let idle = now >= g.last_update && now - g.last_update
                >= self.config.idle_timeout;
            proof {
                assert(idle == is_idle(g@, old(self).config, now));
                reveal(Seq::filter);
                assert(om.take(k + 1).drop_last() =~= om.take(k));
                assert(om.take(k + 1).last() == om[k]);
            }
            if idle {
                expired.push(g.event);
            } else {
                kept.push(g);
                proof {
                    assert(models(kept@) =~~= pk.push(om[k]));
                    assert forall|a: int, b: int|
                        #![trigger models(kept@)[a], models(kept@)[b]]
                        0 <= a < b < models(kept@).len() implies models(kept@)[a].id
                        != models(kept@)[b].id by {
                        if b == models(kept@).len() - 1 {
                            let j = choose|j: int| 0 <= j < k && pk[a] == om[j];
                            assert(om[j].id != om[k].id);
                        }
                    };
                }
            }
            proof {
                k = k + 1;
            }
        }
        proof {
            assert(om.take(k) =~= om);
        }
        self.groups = kept;
        proof {
            assert forall|i: int| 0 <= i < self@.len() implies (#[trigger] self@[i]).records.len()
                >= 1 by {
                let j = choose|j: int| 0 <= j < k && self@[i] == om[j];
                assert(om[j].records.len() >= 1);
            };
        }
        expired
    }
}

/// The records of the in-progress group carrying `id`, in arrival order;
/// empty when no group does.
pub open spec fn group_records(gs: Seq<GroupModel>, id: AuditId) -> Seq<Record> {
    if has_group(gs, id) {
        gs[idx_of(gs, id)].records
    } else {
        Seq::empty()
    }
}

/// The group table after a whole trace of records is ingested.
pub open spec fn run_groups(
    cfg: CorrelatorConfig,
    gs: Seq<GroupModel>,
    rs: Seq<(Record, u64)>,
) -> Seq<GroupModel>
    decreases rs.len(),
{
    if rs.len() == 0 {
        gs
    } else {
        run_groups(cfg, step_groups(cfg, gs, rs[0].0, rs[0].1), rs.skip(1))
    }
}

/// The record is absorbed into an in-progress group: it neither completes
/// a group nor finds the table saturated.
pub open spec fn step_absorbs(
    cfg: CorrelatorConfig,
    gs: Seq<GroupModel>,
    r: Record,
    now: u64,
) -> bool {
    if has_group(gs, r.audit_id) {
        !completes(cfg, spec_append(gs[idx_of(gs, r.audit_id)], r, now).records, r)
    } else {
        gs.len() < cfg.max_groups && !completes(cfg, seq![r], r)
    }
}

/// Every record of the trace is absorbed, in order.
pub open spec fn run_absorbs(
    cfg: CorrelatorConfig,
    gs: Seq<GroupModel>,
    rs: Seq<(Record, u64)>,
) -> bool
    decreases rs.len(),
{
    rs.len() == 0 || (step_absorbs(cfg, gs, rs[0].0, rs[0].1) && run_absorbs(
        cfg,
        step_groups(cfg, gs, rs[0].0, rs[0].1),
        rs.skip(1),
    ))
}

/// The records of a trace that carry `id`, in trace order.
pub open spec fn records_for(rs: Seq<(Record, u64)>, id: AuditId) -> Seq<Record>
    decreases rs.len(),
{
    if rs.len() == 0 {
        Seq::empty()
    } else if rs[0].0.audit_id == id {
        seq![rs[0].0] + records_for(rs.skip(1), id)
    } else {
        records_for(rs.skip(1), id)
    }
}

/// One absorbed step appends the record to exactly its own group, in
/// order, and touches the records of no other id.
pub proof fn lemma_step_group_records(
    cfg: CorrelatorConfig,
    gs: Seq<GroupModel>,
    r: Record,
    now: u64,
    id: AuditId,
)
    requires
        distinct_ids(gs),
        step_absorbs(cfg, gs, r, now),
    ensures
        distinct_ids(step_groups(cfg, gs, r, now)),
        group_records(step_groups(cfg, gs, r, now), id) == (if r.audit_id == id {
            group_records(gs, id).push(r)
        } else {
            group_records(gs, id)
        }),
{
    let rid = r.audit_id;
    let post = step_groups(cfg, gs, r, now);
    if has_group(gs, rid) {
        let i = idx_of(gs, rid);
        assert(0 <= i < gs.len() && gs[i].id == rid);
        let g2 = spec_append(gs[i], r, now);
        assert(post == gs.update(i, g2));
        assert(distinct_ids(post));
        if has_group(post, id) {
            let c = idx_of(post, id);
            assert(0 <= c < post.len() && post[c].id == id);
            if id == rid {
                assert(c == i);
                assert(idx_of(gs, id) == i);
                assert(group_records(post, id) == gs[i].records.push(r));
            } else {
                assert(c != i);
                assert(gs[c].id == id);
                assert(has_group(gs, id));
                let c2 = idx_of(gs, id);
                assert(gs[c2].id == id);
                assert(c2 == c);
                assert(group_records(post, id) == group_records(gs, id));
            }
        } else {
            if id == rid {
                assert(post[i].id == id);
            }
            if has_group(gs, id) {
                let c2 = idx_of(gs, id);
                assert(gs[c2].id == id);
                assert(c2 != i);
                assert(post[c2].id == id);
            }
        }
    } else {
        let gnew = spec_new_group(r, now);
        assert(post == gs.push(gnew));
        assert forall|a: int, b: int|
            #![trigger post[a], post[b]]
            0 <= a < b < post.len() implies post[a].id != post[b].id by {
            if b == gs.len() {
                if gs[a].id == rid {
                    assert(has_group(gs, rid));
                }
            }
        };
        if id == rid {
            assert(post[gs.len() as int].id == id);
            assert(has_group(post, id));
            let c = idx_of(post, id);
            assert(post[c].id == id);
            if c < gs.len() {
                assert(gs[c].id == id);
                assert(has_group(gs, id));
            }
            assert(c == gs.len());
            assert(group_records(post, id) == seq![r]);
            assert(group_records(gs, id) =~= Seq::<Record>::empty());
            assert(Seq::<Record>::empty().push(r) =~= seq![r]);
        } else {
            if has_group(gs, id) {
                let c2 = idx_of(gs, id);
                assert(gs[c2].id == id);
                assert(post[c2].id == id);
                assert(has_group(post, id));
                let c = idx_of(post, id);
                assert(post[c].id == id);
                assert(c != gs.len());
                assert(gs[c].id == id);
                assert(c == c2);
            } else {
                if has_group(post, id) {
                    let c = idx_of(post, id);
                    assert(post[c].id == id);
                    assert(c != gs.len());
                    assert(gs[c].id == id);
                }
            }
        }
    }
}

/// Grouping correctness: as long as every record of a trace is absorbed,
/// the group of any id holds exactly the trace's records of that id, in
/// their relative arrival order, after whatever interleaving with other
/// ids; and ids stay unique. Together with `step_outcome` (which emits a
/// finalized group's records unchanged, plus the closing record) this pins
/// down the single event emitted per group.
pub proof fn lemma_grouping_order(
    cfg: CorrelatorConfig,
    gs: Seq<GroupModel>,
    rs: Seq<(Record, u64)>,
    id: AuditId,
)
    requires
        distinct_ids(gs),
        run_absorbs(cfg, gs, rs),
    ensures
        distinct_ids(run_groups(cfg, gs, rs)),
        group_records(run_groups(cfg, gs, rs), id) == group_records(gs, id) + records_for(rs, id),
    decreases rs.len(),
{
    if rs.len() == 0 {
        assert(group_records(gs, id) + Seq::<Record>::empty() =~= group_records(gs, id));
    } else {
        let r = rs[0].0;
        let now = rs[0].1;
        let mid = step_groups(cfg, gs, r, now);
        lemma_step_group_records(cfg, gs, r, now, id);
        lemma_grouping_order(cfg, mid, rs.skip(1), id);
        if r.audit_id == id {
            assert(group_records(gs, id).push(r) + records_for(rs.skip(1), id) =~= group_records(
                gs,
                id,
            ) + (seq![r] + records_for(rs.skip(1), id)));
        } else {
            assert(group_records(gs, id) + records_for(rs.skip(1), id) == group_records(gs, id)
                + records_for(rs, id));
        }
    }
}

/// Backpressure, one step: ingestion never grows the table past
/// `max_groups`; a record that would is handed back instead.
pub proof fn lemma_backpressure(cfg: CorrelatorConfig, gs: Seq<GroupModel>, r: Record, now: u64)
    requires
        gs.len() <= cfg.max_groups,
    ensures
        step_groups(cfg, gs, r, now).len() <= cfg.max_groups,
{
}

/// Backpressure over a whole trace: however long ingestion runs, the
/// in-progress group count stays within its configured bound.
pub proof fn lemma_backpressure_run(
    cfg: CorrelatorConfig,
    gs: Seq<GroupModel>,
    rs: Seq<(Record, u64)>,
)
    requires
        gs.len() <= cfg.max_groups,
    ensures
        run_groups(cfg, gs, rs).len() <= cfg.max_groups,
    decreases rs.len(),
{
    if rs.len() > 0 {
        lemma_backpressure(cfg, gs, rs[0].0, rs[0].1);
        lemma_backpressure_run(cfg, step_groups(cfg, gs, rs[0].0, rs[0].1), rs.skip(1));
    }
}

/// Idle-expiry bound: no group survives a sweep once `idle_timeout` has
/// passed since its last record; what `sweep` leaves behind is strictly
/// younger.
pub proof fn lemma_sweep_expiry_bound(gs: Seq<GroupModel>, cfg: CorrelatorConfig, now: u64)
    ensures
        forall|i: int|
            0 <= i < live_groups(gs, cfg, now).len() ==> (#[trigger] live_groups(
                gs,
                cfg,
                now,
            )[i]).last_update + cfg.idle_timeout > now,
{
    let f = live_groups(gs, cfg, now);
    assert forall|i: int| 0 <= i < f.len() implies f[i].last_update + cfg.idle_timeout > now by {
        gs.lemma_filter_pred(|g: GroupModel| !is_idle(g, cfg, now), i);
    };
}

/// Finalization is final: the step that completes a group leaves no
/// in-progress state for its id.
pub proof fn lemma_finalize_clears_id(
    cfg: CorrelatorConfig,
    gs: Seq<GroupModel>,
    r: Record,
    now: u64,
)
    requires
        distinct_ids(gs),
        has_group(gs, r.audit_id),
        completes(cfg, spec_append(gs[idx_of(gs, r.audit_id)], r, now).records, r),
    ensures
        !has_group(step_groups(cfg, gs, r, now), r.audit_id),
{
    let id = r.audit_id;
    let i = idx_of(gs, id);
    assert(0 <= i < gs.len() && gs[i].id == id);
    let post = gs.remove(i);
    assert(step_groups(cfg, gs, r, now) == post);
    if has_group(post, id) {
        let c = idx_of(post, id);
        assert(0 <= c < post.len() && post[c].id == id);
        if c < i {
            assert(post[c] == gs[c]);
        } else {
            assert(post[c] == gs[c + 1]);
        }
    }
}

/// Late-arrival policy: a record whose id matches an already-finalized
/// group starts a new, separate, single-record group (room and absorption
/// permitting) rather than reopening the old one.
pub proof fn lemma_late_arrival(cfg: CorrelatorConfig, gs: Seq<GroupModel>, r: Record, now: u64)
    requires
        !has_group(gs, r.audit_id),
        gs.len() < cfg.max_groups,
        !completes(cfg, seq![r], r),
    ensures
        step_groups(cfg, gs, r, now) == gs.push(spec_new_group(r, now)),
        group_records(step_groups(cfg, gs, r, now), r.audit_id) == seq![r],
{
    let id = r.audit_id;
    let post = gs.push(spec_new_group(r, now));
    assert(post[gs.len() as int].id == id);
    assert(has_group(post, id));
    let c = idx_of(post, id);
    assert(post[c].id == id);
    if c < gs.len() {
        assert(gs[c].id == id);
        assert(has_group(gs, id));
    }
    assert(c == gs.len());
}

} // verus!
