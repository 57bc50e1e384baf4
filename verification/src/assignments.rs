//! Which account a source's usage belongs to, and when.
use crate::ids::{
    ProviderAccountId, SourceAccountAssignmentId, SourceId, assignment_id_spec,
    source_account_assignment_id,
};
use crate::records::{
    IdentitySource, ParseEvidence, SOURCE_ACCOUNT_ASSIGNMENT_SCHEMA_VERSION,
    SourceAccountAssignment, SourceLocation, UsageEvent, UsageSummary, in_period, overlapping,
    periods_overlap, timestamp_in_period,
};
use crate::text::{blank, concat2, concat3, is_blank, same_text};
use crate::time::{Timestamp, last_instant, opt_wf, rfc3339_text};
use vstd::prelude::*;

verus! {

pub open spec fn window_text(label: Seq<char>) -> Seq<char> {
    label + " ended_at must be after started_at"@
}

/// Whether a period has an instant: it ends after it starts, if at all.
pub open spec fn proper_window(start: Timestamp, end: Option<Timestamp>) -> bool {
    end matches Some(e) ==> start.at() < e.at()
}

pub fn validate_time_window(
    started_at: Timestamp,
    ended_at: Option<Timestamp>,
    label: &str,
) -> (r: Result<(), String>)
    ensures
        match r {
            Ok(_) => proper_window(started_at, ended_at),
            Err(e) => !proper_window(started_at, ended_at) && e@ == window_text(label@),
        },
{
    match ended_at {
        Some(e) => if e.not_after(&started_at) {
            Err(concat2(label, " ended_at must be after started_at"))
        } else {
            Ok(())
        },
        None => Ok(()),
    }
}

impl SourceAccountAssignment {
    pub open spec fn overlaps(self, start: Timestamp, end: Option<Timestamp>) -> bool {
        overlapping(start, end, self.started_at, self.ended_at)
    }

    pub open spec fn holds_at(self, t: Timestamp) -> bool {
        in_period(t, self.started_at, self.ended_at)
    }
}

/// The places of those of the first `n` assignments that overlap a period.
pub open spec fn overlap_places(
    v: Seq<SourceAccountAssignment>,
    start: Timestamp,
    end: Option<Timestamp>,
    n: int,
) -> Seq<int>
    decreases n,
{
    if n <= 0 {
        Seq::empty()
    } else {
        let before = overlap_places(v, start, end, n - 1);
        if v[n - 1].overlaps(start, end) {
            before.push(n - 1)
        } else {
            before
        }
    }
}

pub open spec fn overlaps_of(
    v: Seq<SourceAccountAssignment>,
    start: Timestamp,
    end: Option<Timestamp>,
) -> Seq<int> {
    overlap_places(v, start, end, v.len() as int)
}

pub proof fn lemma_overlap_places(
    v: Seq<SourceAccountAssignment>,
    start: Timestamp,
    end: Option<Timestamp>,
    n: int,
)
    requires
        0 <= n <= v.len(),
    ensures
        forall|k: int|
            0 <= k < overlap_places(v, start, end, n).len() ==> 0 <= (#[trigger] overlap_places(
                v,
                start,
                end,
                n,
            )[k]) < n && v[overlap_places(v, start, end, n)[k]].overlaps(start, end),
        forall|i: int|
            0 <= i < n && (#[trigger] v[i]).overlaps(start, end) ==> overlap_places(
                v,
                start,
                end,
                n,
            ).contains(i),
    decreases n,
{
    if n > 0 {
        lemma_overlap_places(v, start, end, n - 1);
        let before = overlap_places(v, start, end, n - 1);
        let now = overlap_places(v, start, end, n);
        assert forall|i: int| 0 <= i < n && (#[trigger] v[i]).overlaps(start, end) implies now.contains(
            i,
        ) by {
            if i < n - 1 {
                assert(before.contains(i));
                let k = choose|k: int| 0 <= k < before.len() && before[k] == i;
                assert(now[k] == i);
            } else {
                assert(now[now.len() - 1] == i);
            }
        }
    }
}

/// Fails where a period overlaps an assignment other than the one to ignore.
pub fn validate_source_assignment_overlap(
    assignments: &[SourceAccountAssignment],
    source_id: &SourceId,
    started_at: Timestamp,
    ended_at: Option<Timestamp>,
    ignore_assignment_id: Option<&SourceAccountAssignmentId>,
) -> (r: Result<(), String>)
    ensures
        ({
            let clash = exists|i: int|
                0 <= i < assignments@.len() && (#[trigger] assignments@[i]).overlaps(
                    started_at,
                    ended_at,
                ) && !(ignore_assignment_id matches Some(id) && id.0@
                    == assignments@[i].assignment_id.0@);
            match r {
                Ok(_) => !clash,
                Err(e) => clash && e@
                    == "source connection overlaps an existing connection for source "@
                    + source_id.0@,
            }
        }),
{
    let mut i: usize = 0;
    while i < assignments.len()
        invariant
            i <= assignments.len(),
            forall|k: int|
                0 <= k < i ==> !((#[trigger] assignments@[k]).overlaps(started_at, ended_at) && !(
                ignore_assignment_id matches Some(id) && id.0@
                    == assignments@[k].assignment_id.0@)),
        decreases assignments.len() - i,
    {
        let a = &assignments[i];
        let ignored = match ignore_assignment_id {
            Some(id) => same_text(id.0.as_str(), a.assignment_id.0.as_str()),
            None => false,
        };
        if !ignored && periods_overlap(started_at, ended_at, a.started_at, a.ended_at) {
            return Err(
                concat2(
                    "source connection overlaps an existing connection for source ",
                    source_id.0.as_str(),
                ),
            );
        }
        i = i + 1;
    }
    Ok(())
}

// ---------------------------------------------------------------------------
// Connecting
// ---------------------------------------------------------------------------

/// What has to be written to change a source's assignments.
#[derive(Debug, Clone, PartialEq, Eq)]
pub struct AssignmentPlan {
    pub deletes: Vec<SourceAccountAssignmentId>,
    pub upserts: Vec<SourceAccountAssignment>,
    /// The assignment that holds for the period afterwards.
    pub assignment: SourceAccountAssignment,
}

pub open spec fn earlier_start(a: Timestamp, b: Timestamp) -> Timestamp {
    if b.at() < a.at() {
        b
    } else {
        a
    }
}

pub open spec fn later_end(a: Option<Timestamp>, b: Option<Timestamp>) -> Option<Timestamp> {
    match (a, b) {
        (Some(x), Some(y)) => Some(if x.at() > y.at() {
            x
        } else {
            y
        }),
        _ => None,
    }
}

/// Whether `r` is an assignment of the source to the account for the period, made
/// by the user.
pub open spec fn is_user_assignment(
    r: SourceAccountAssignment,
    source: SourceLocation,
    account: ProviderAccountId,
    start: Timestamp,
    end: Option<Timestamp>,
) -> bool {
    &&& r.schema_version@ == SOURCE_ACCOUNT_ASSIGNMENT_SCHEMA_VERSION@
    &&& r.assignment_id.0@ == assignment_id_spec(source.source_id.0@, account.0@, start)
    &&& r.source_id == source.source_id
    &&& r.provider == source.provider
    &&& r.provider_account_id == account
    &&& r.started_at == start
    &&& r.ended_at == end
    &&& r.record_source == IdentitySource::UserConfigured
}

/// Whether the part of an assignment before a replacement is kept.
pub open spec fn keeps_front(e: SourceAccountAssignment, start: Timestamp) -> bool {
    e.started_at.at() < start.at()
}

/// Whether the part of an assignment after a replacement is kept.
pub open spec fn keeps_tail(e: SourceAccountAssignment, end: Option<Timestamp>) -> bool {
    end matches Some(x) && (e.ended_at matches Some(y) ==> y.at() > x.at())
}

/// Whether `t` is the part of `e` from `start` on.
pub open spec fn is_tail(
    t: SourceAccountAssignment,
    e: SourceAccountAssignment,
    source: SourceLocation,
    start: Timestamp,
    now: Timestamp,
) -> bool {
    &&& t.schema_version@ == SOURCE_ACCOUNT_ASSIGNMENT_SCHEMA_VERSION@
    &&& t.assignment_id.0@ == assignment_id_spec(
        source.source_id.0@,
        e.provider_account_id.0@,
        start,
    )
    &&& t.source_id == source.source_id
    &&& t.provider == source.provider
    &&& t.provider_account_id == e.provider_account_id
    &&& t.started_at == start
    &&& t.ended_at == e.ended_at
    &&& t.record_source == e.record_source
    &&& t.verified_at == e.verified_at
    &&& t.created_at == now
    &&& t.updated_at == now
}

/// What replacing part of an assignment writes: the part before it under the same
/// identifier, else its deletion; and the part after it.
pub open spec fn replaces(
    p: AssignmentPlan,
    e: SourceAccountAssignment,
    source: SourceLocation,
    start: Timestamp,
    end: Option<Timestamp>,
    now: Timestamp,
) -> bool {
    let front = SourceAccountAssignment { ended_at: Some(start), updated_at: now, ..e };
    let fresh = p.assignment;
    if keeps_front(e, start) {
        &&& p.deletes@.len() == 0
        &&& if keeps_tail(e, end) {
            &&& p.upserts@.len() == 3
            &&& p.upserts@[0] == front
            &&& is_tail(p.upserts@[1], e, source, end->0, now)
            &&& p.upserts@[2] == fresh
        } else {
            p.upserts@ == seq![front, fresh]
        }
    } else {
        &&& p.deletes@ == seq![e.assignment_id]
        &&& if keeps_tail(e, end) {
            &&& p.upserts@.len() == 2
            &&& is_tail(p.upserts@[0], e, source, end->0, now)
            &&& p.upserts@[1] == fresh
        } else {
            p.upserts@ == seq![fresh]
        }
    }
}

/// Whether the plan connects the source to the account for the period. Without an
/// overlap the assignment is added. An overlapping one of the same account is
/// widened to cover the period. One of another account gives way for the period
/// and keeps the rest.
pub open spec fn connects(
    p: AssignmentPlan,
    v: Seq<SourceAccountAssignment>,
    source: SourceLocation,
    account: ProviderAccountId,
    start: Timestamp,
    end: Option<Timestamp>,
    now: Timestamp,
) -> bool {
    let o = overlaps_of(v, start, end);
    if o.len() == 0 {
        &&& is_user_assignment(p.assignment, source, account, start, end)
        &&& p.assignment.verified_at is None
        &&& p.assignment.created_at == now
        &&& p.assignment.updated_at == now
        &&& p.deletes@.len() == 0
        &&& p.upserts@ == seq![p.assignment]
    } else {
        let e = v[o[0]];
        if e.provider_account_id.0@ == account.0@ {
            let s = earlier_start(e.started_at, start);
            let f = later_end(e.ended_at, end);
            if e.started_at == s && e.ended_at == f {
                p.assignment == e && p.deletes@.len() == 0 && p.upserts@.len() == 0
            } else {
                &&& is_user_assignment(p.assignment, source, account, s, f)
                &&& p.assignment.verified_at == e.verified_at
                &&& p.assignment.created_at == e.created_at
                &&& p.assignment.updated_at == now
                &&& p.upserts@ == seq![p.assignment]
                &&& p.deletes@ == if e.assignment_id.0@ == p.assignment.assignment_id.0@ {
                    Seq::empty()
                } else {
                    seq![e.assignment_id]
                }
            }
        } else {
            &&& is_user_assignment(p.assignment, source, account, start, end)
            &&& p.assignment.verified_at is None
            &&& p.assignment.created_at == now
            &&& p.assignment.updated_at == now
            &&& replaces(p, e, source, start, end, now)
        }
    }
}

fn overlapping_places(
    assignments: &[SourceAccountAssignment],
    started_at: Timestamp,
    ended_at: Option<Timestamp>,
) -> (r: Vec<usize>)
    ensures
        r@.map_values(|i: usize| i as int) == overlaps_of(assignments@, started_at, ended_at),
        forall|k: int| 0 <= k < r@.len() ==> (#[trigger] r@[k]) < assignments@.len(),
{
    let mut out: Vec<usize> = Vec::new();
    let mut i: usize = 0;
    proof {
        assert(out@.map_values(|i: usize| i as int) =~= Seq::empty());
    }
    while i < assignments.len()
        invariant
            i <= assignments.len(),
            out@.map_values(|i: usize| i as int) == overlap_places(
                assignments@,
                started_at,
                ended_at,
                i as int,
            ),
            forall|k: int| 0 <= k < out@.len() ==> (#[trigger] out@[k]) < assignments@.len(),
        decreases assignments.len() - i,
    {
        if periods_overlap(
            started_at,
            ended_at,
            assignments[i].started_at,
            assignments[i].ended_at,
        ) {
            let ghost before = out@.map_values(|i: usize| i as int);
            out.push(i);
            proof {
                assert(out@.map_values(|i: usize| i as int) =~= before.push(i as int));
            }
        }
        i = i + 1;
    }
    out
}

fn user_assignment(
    source: &SourceLocation,
    account: &ProviderAccountId,
    started_at: Timestamp,
    ended_at: Option<Timestamp>,
    verified_at: Option<Timestamp>,
    created_at: Timestamp,
    updated_at: Timestamp,
) -> (r: SourceAccountAssignment)
    requires
        started_at.wf(),
    ensures
        is_user_assignment(r, *source, *account, started_at, ended_at),
        r.verified_at == verified_at,
        r.created_at == created_at,
        r.updated_at == updated_at,
{
    SourceAccountAssignment {
        schema_version: SOURCE_ACCOUNT_ASSIGNMENT_SCHEMA_VERSION.to_owned(),
        assignment_id: source_account_assignment_id(&source.source_id, account, started_at),
        source_id: source.source_id.clone(),
        provider: source.provider.clone(),
        provider_account_id: account.clone(),
        started_at,
        ended_at,
        record_source: IdentitySource::UserConfigured,
        verified_at,
        created_at,
        updated_at,
    }
}

/// The parts of an assignment that a replacement leaves, and whether the
/// assignment itself has to go.
fn preserve_non_overlapping_source_assignment_segments(
    source: &SourceLocation,
    existing: &SourceAccountAssignment,
    replacement_started_at: Timestamp,
    replacement_ended_at: Option<Timestamp>,
    now: Timestamp,
) -> (r: (Vec<SourceAccountAssignmentId>, Vec<SourceAccountAssignment>))
    requires
        opt_wf(replacement_ended_at),
    ensures
        ({
            let front = SourceAccountAssignment {
                ended_at: Some(replacement_started_at),
                updated_at: now,
                ..*existing
            };
            let kept = keeps_front(*existing, replacement_started_at);
            let tail = keeps_tail(*existing, replacement_ended_at);
            &&& r.0@ == if kept {
                Seq::empty()
            } else {
                seq![existing.assignment_id]
            }
            &&& r.1@.len() == (if kept {
                1int
            } else {
                0
            }) + (if tail {
                1int
            } else {
                0
            })
            &&& kept ==> r.1@[0] == front
            &&& tail ==> is_tail(
                r.1@[r.1@.len() - 1],
                *existing,
                *source,
                replacement_ended_at->0,
                now,
            )
        }),
{
    let mut deletes: Vec<SourceAccountAssignmentId> = Vec::new();
    let mut upserts: Vec<SourceAccountAssignment> = Vec::new();
    if existing.started_at.before(&replacement_started_at) {
        let mut front = existing.clone();
        front.ended_at = Some(replacement_started_at);
        front.updated_at = now;
        upserts.push(front);
        proof {
            assert(deletes@ =~= Seq::empty());
        }
    } else {
        deletes.push(existing.assignment_id.clone());
        proof {
            assert(deletes@ =~= seq![existing.assignment_id]);
        }
    }
    match replacement_ended_at {
        Some(end) => {
            let longer = match existing.ended_at {
                Some(e) => end.before(&e),
                None => true,
            };
            if longer {
                upserts.push(
                    SourceAccountAssignment {
                        schema_version: SOURCE_ACCOUNT_ASSIGNMENT_SCHEMA_VERSION.to_owned(),
                        assignment_id: source_account_assignment_id(
                            &source.source_id,
                            &existing.provider_account_id,
                            end,
                        ),
                        source_id: source.source_id.clone(),
                        provider: source.provider.clone(),
                        provider_account_id: existing.provider_account_id.clone(),
                        started_at: end,
                        ended_at: existing.ended_at,
                        record_source: existing.record_source,
                        verified_at: existing.verified_at,
                        created_at: now,
                        updated_at: now,
                    },
                );
            }
        },
        None => {},
    }
    (deletes, upserts)
}

pub open spec fn assignments_wf(v: Seq<SourceAccountAssignment>) -> bool {
    forall|i: int|
        0 <= i < v.len() ==> (#[trigger] v[i]).started_at.wf() && opt_wf(v[i].ended_at)
}

/// What connecting gives: a plan, unless the period has no instant or overlaps
/// several assignments.
pub open spec fn connected(
    r: Result<AssignmentPlan, String>,
    v: Seq<SourceAccountAssignment>,
    source: SourceLocation,
    account: ProviderAccountId,
    start: Timestamp,
    end: Option<Timestamp>,
    now: Timestamp,
) -> bool {
    match r {
        Ok(p) => {
            &&& proper_window(start, end)
            &&& overlaps_of(v, start, end).len() <= 1
            &&& connects(p, v, source, account, start, end, now)
        },
        Err(e) => if !proper_window(start, end) {
            e@ == window_text("source connection"@)
        } else {
            &&& overlaps_of(v, start, end).len() > 1
            &&& e@ == "source "@ + source.source_id.0@
                + " has multiple overlapping account connections around "@ + rfc3339_text(
                start.secs as int,
                start.nanos as int,
            )
        },
    }
}

/// Connects a source to an account for a period. Fails on a period without an
/// instant, and where the period overlaps several assignments.
pub fn connect_source_to_account(
    source: &SourceLocation,
    account: &ProviderAccountId,
    assignments: &[SourceAccountAssignment],
    started_at: Timestamp,
    ended_at: Option<Timestamp>,
    now: Timestamp,
) -> (r: Result<AssignmentPlan, String>)
    requires
        started_at.wf(),
        opt_wf(ended_at),
        assignments_wf(assignments@),
    ensures
        connected(r, assignments@, *source, *account, started_at, ended_at, now),
{
    match validate_time_window(started_at, ended_at, "source connection") {
        Ok(_) => {},
        Err(e) => return Err(e),
    }
    let overlaps = overlapping_places(assignments, started_at, ended_at);
    let ghost o = overlaps_of(assignments@, started_at, ended_at);
    proof {
        assert(o.len() == overlaps@.len());
    }
    if overlaps.len() > 1 {
        let at = started_at.to_rfc3339();
        let mut message = concat3(
            "source ",
            source.source_id.0.as_str(),
            " has multiple overlapping account connections around ",
        );
        message.append(at.as_str());
        return Err(message);
    }
    if overlaps.len() == 1 {
        let existing = &assignments[overlaps[0]];
        proof {
            assert(o[0] == overlaps@[0] as int);
            assert(existing.started_at.wf());
        }
        if same_text(existing.provider_account_id.0.as_str(), account.0.as_str()) {
            let merged_start = existing.started_at.min(started_at);
            let merged_end = match (existing.ended_at, ended_at) {
                (Some(a), Some(b)) => Some(a.max(b)),
                _ => None,
            };
            let same_end = match (existing.ended_at, merged_end) {
                (Some(a), Some(b)) => a == b,
                (None, None) => true,
                _ => false,
            };
            if existing.started_at == merged_start && same_end {
                return Ok(
                    AssignmentPlan {
                        deletes: Vec::new(),
                        upserts: Vec::new(),
                        assignment: existing.clone(),
                    },
                );
            }
            let merged = user_assignment(
                source,
                account,
                merged_start,
                merged_end,
                existing.verified_at,
                existing.created_at,
                now,
            );
            let mut deletes: Vec<SourceAccountAssignmentId> = Vec::new();
            if !same_text(existing.assignment_id.0.as_str(), merged.assignment_id.0.as_str()) {
                deletes.push(existing.assignment_id.clone());
                proof {
                    assert(deletes@ =~= seq![existing.assignment_id]);
                }
            } else {
                proof {
                    assert(deletes@ =~= Seq::empty());
                }
            }
            let mut upserts: Vec<SourceAccountAssignment> = Vec::new();
            upserts.push(merged.clone());
            proof {
                assert(upserts@ =~= seq![merged]);
            }
            return Ok(AssignmentPlan { deletes, upserts, assignment: merged });
        }
        let fresh = user_assignment(source, account, started_at, ended_at, None, now, now);
        let (deletes, kept) = preserve_non_overlapping_source_assignment_segments(
            source,
            existing,
            started_at,
            ended_at,
            now,
        );
        let mut upserts = kept;
        upserts.push(fresh.clone());
        let plan = AssignmentPlan { deletes, upserts, assignment: fresh };
        proof {
            if keeps_front(*existing, started_at) {
                if !keeps_tail(*existing, ended_at) {
                    assert(plan.upserts@ =~= seq![plan.upserts@[0], fresh]);
                }
            } else if !keeps_tail(*existing, ended_at) {
                assert(plan.upserts@ =~= seq![fresh]);
            }
            assert(replaces(plan, *existing, *source, started_at, ended_at, now));
        }
        return Ok(plan);
    }
    let fresh = user_assignment(source, account, started_at, ended_at, None, now, now);
    let mut upserts: Vec<SourceAccountAssignment> = Vec::new();
    upserts.push(fresh.clone());
    proof {
        assert(upserts@ =~= seq![fresh]);
    }
    Ok(AssignmentPlan { deletes: Vec::new(), upserts, assignment: fresh })
}

// ---------------------------------------------------------------------------
// Disconnecting and looking up
// ---------------------------------------------------------------------------

/// Whether an assignment holds at `t` and is of the account, where one is named.
pub open spec fn active_for(
    a: SourceAccountAssignment,
    t: Timestamp,
    account: Option<Seq<char>>,
) -> bool {
    a.holds_at(t) && (account matches Some(id) ==> a.provider_account_id.0@ == id)
}

/// The last of the first `n` assignments that hold at `t`.
pub open spec fn last_active(
    v: Seq<SourceAccountAssignment>,
    t: Timestamp,
    account: Option<Seq<char>>,
    n: int,
) -> Option<int>
    decreases n,
{
    if n <= 0 {
        None
    } else if active_for(v[n - 1], t, account) {
        Some(n - 1)
    } else {
        last_active(v, t, account, n - 1)
    }
}

/// Ends the assignment that holds at `ended_at`, of the account where one is
/// named. Fails where none holds then, and where it would end as it starts.
pub fn disconnect_source_from_account(
    source: &SourceLocation,
    assignments: &[SourceAccountAssignment],
    account: Option<&ProviderAccountId>,
    ended_at: Timestamp,
    now: Timestamp,
) -> (r: Result<SourceAccountAssignment, String>)
    requires
        ended_at.wf(),
    ensures
        ({
            let wanted = match account {
                Some(id) => Some(id.0@),
                None => None,
            };
            let found = last_active(assignments@, ended_at, wanted, assignments@.len() as int);
            match r {
                Ok(a) => found matches Some(k) && assignments@[k].started_at.at() < ended_at.at()
                    && a == (SourceAccountAssignment {
                    ended_at: Some(ended_at),
                    updated_at: now,
                    ..assignments@[k]
                }),
                Err(e) => match found {
                    None => e@ == "no active source connection found for "@ + source.source_id.0@
                        + " at "@ + rfc3339_text(ended_at.secs as int, ended_at.nanos as int),
                    Some(k) => assignments@[k].started_at.at() >= ended_at.at() && e@
                        == window_text("source connection"@),
                },
            }
        }),
{
    let ghost wanted = match account {
        Some(id) => Some(id.0@),
        None => None,
    };
    let mut n: usize = assignments.len();
    while n > 0
        invariant
            n <= assignments.len(),
            wanted == match account {
                Some(id) => Some(id.0@),
                None => None,
            },
            last_active(assignments@, ended_at, wanted, assignments@.len() as int) == last_active(
                assignments@,
                ended_at,
                wanted,
                n as int,
            ),
        decreases n,
    {
        let a = &assignments[n - 1];
        let of_account = match account {
            Some(id) => same_text(a.provider_account_id.0.as_str(), id.0.as_str()),
            None => true,
        };
        if timestamp_in_period(ended_at, a.started_at, a.ended_at) && of_account {
            match validate_time_window(a.started_at, Some(ended_at), "source connection") {
                Ok(_) => {},
                Err(e) => return Err(e),
            }
            let mut out = a.clone();
            out.ended_at = Some(ended_at);
            out.updated_at = now;
            return Ok(out);
        }
        n = n - 1;
    }
    let at = ended_at.to_rfc3339();
    let mut message = concat3(
        "no active source connection found for ",
        source.source_id.0.as_str(),
        " at ",
    );
    message.append(at.as_str());
    Err(message)
}

/// The assignment among the first `n` that holds at `t`: the one that starts last,
/// and of those that start together the last.
pub open spec fn current_upto(v: Seq<SourceAccountAssignment>, t: Timestamp, n: int) -> Option<int>
    decreases n,
{
    if n <= 0 {
        None
    } else {
        let before = current_upto(v, t, n - 1);
        if !v[n - 1].holds_at(t) {
            before
        } else {
            match before {
                Some(k) => if v[n - 1].started_at.at() >= v[k].started_at.at() {
                    Some(n - 1)
                } else {
                    before
                },
                None => Some(n - 1),
            }
        }
    }
}

pub open spec fn current_assignment(v: Seq<SourceAccountAssignment>, t: Timestamp) -> Option<
    SourceAccountAssignment,
> {
    match current_upto(v, t, v.len() as int) {
        Some(k) => Some(v[k]),
        None => None,
    }
}

pub fn assignment_for_timestamp(
    assignments: &[SourceAccountAssignment],
    timestamp: Timestamp,
) -> (r: Option<&SourceAccountAssignment>)
    ensures
        match r {
            Some(a) => current_assignment(assignments@, timestamp) == Some(*a),
            None => current_assignment(assignments@, timestamp) is None,
        },
{
    let mut found: Option<usize> = None;
    let mut i: usize = 0;
    while i < assignments.len()
        invariant
            i <= assignments.len(),
            match found {
                Some(k) => k < i && current_upto(assignments@, timestamp, i as int) == Some(
                    k as int,
                ),
                None => current_upto(assignments@, timestamp, i as int) is None,
            },
        decreases assignments.len() - i,
    {
        let a = &assignments[i];
        if timestamp_in_period(timestamp, a.started_at, a.ended_at) {
            match found {
                Some(k) => {
                    if assignments[k].started_at.not_after(&a.started_at) {
                        found = Some(i);
                    }
                },
                None => {
                    found = Some(i);
                },
            }
        }
        i = i + 1;
    }
    match found {
        Some(k) => Some(&assignments[k]),
        None => None,
    }
}

// ---------------------------------------------------------------------------
// Attributing usage
// ---------------------------------------------------------------------------

/// Sources of identity that an assignment overrides.
pub open spec fn assignable(source: IdentitySource) -> bool {
    match source {
        IdentitySource::SourceConfig => true,
        IdentitySource::UserConfigured => true,
        IdentitySource::ManualHint => true,
        IdentitySource::Unknown => true,
        IdentitySource::Unresolved => true,
        _ => false,
    }
}

fn is_assignable(source: &IdentitySource) -> (r: bool)
    ensures
        r == assignable(*source),
{
    match source {
        IdentitySource::SourceConfig => true,
        IdentitySource::UserConfigured => true,
        IdentitySource::ManualHint => true,
        IdentitySource::Unknown => true,
        IdentitySource::Unresolved => true,
        _ => false,
    }
}

pub open spec fn named(id: Option<ProviderAccountId>) -> bool {
    id matches Some(x) && !blank(x.0@)
}

/// Whether a record names an account that was found where the record was read.
pub open spec fn detected(id: Option<ProviderAccountId>, source: Option<IdentitySource>) -> bool {
    named(id) && (source matches Some(s) && !assignable(s))
}

/// Whether a record names an account that only an assignment could have given it.
pub open spec fn clearable(id: Option<ProviderAccountId>, source: Option<IdentitySource>) -> bool {
    named(id) && (source matches Some(s) ==> assignable(s))
}

pub fn keep_detected_account_identity(
    provider_account_id: &Option<ProviderAccountId>,
    identity_source: Option<IdentitySource>,
) -> (r: bool)
    ensures
        r == detected(*provider_account_id, identity_source),
{
    match provider_account_id {
        Some(id) => {
            if is_blank(id.0.as_str()) {
                return false;
            }
            match identity_source {
                Some(s) => !is_assignable(&s),
                None => false,
            }
        },
        None => false,
    }
}

pub fn should_clear_resolved_account(
    provider_account_id: &Option<ProviderAccountId>,
    identity_source: Option<IdentitySource>,
) -> (r: bool)
    ensures
        r == clearable(*provider_account_id, identity_source),
{
    match provider_account_id {
        Some(id) => {
            if is_blank(id.0.as_str()) {
                return false;
            }
            match identity_source {
                Some(s) => is_assignable(&s),
                None => true,
            }
        },
        None => false,
    }
}

pub open spec fn identity_of(e: Option<ParseEvidence>) -> Option<IdentitySource> {
    match e {
        Some(x) => Some(x.account_identity_source),
        None => None,
    }
}

pub open spec fn evidence_with(e: Option<ParseEvidence>, source: IdentitySource) -> Option<
    ParseEvidence,
> {
    match e {
        Some(x) => Some(ParseEvidence { account_identity_source: source, ..x }),
        None => None,
    }
}

/// The account and evidence of a record at `t` once the assignments are applied:
/// what was found with the record stays; else the assignment's account; else an
/// account that only an assignment could have given is taken away.
pub open spec fn resolved(
    v: Seq<SourceAccountAssignment>,
    t: Timestamp,
    id: Option<ProviderAccountId>,
    evidence: Option<ParseEvidence>,
) -> (Option<ProviderAccountId>, Option<ParseEvidence>) {
    let source = identity_of(evidence);
    if detected(id, source) {
        (id, evidence)
    } else {
        match current_assignment(v, t) {
            Some(a) => (
                Some(a.provider_account_id),
                evidence_with(evidence, IdentitySource::SourceConfig),
            ),
            None => if clearable(id, source) {
                (None, evidence_with(evidence, IdentitySource::Unresolved))
            } else {
                (id, evidence)
            },
        }
    }
}

fn identity_source_of(e: &Option<ParseEvidence>) -> (r: Option<IdentitySource>)
    ensures
        r == identity_of(*e),
{
    match e {
        Some(x) => Some(x.account_identity_source),
        None => None,
    }
}

fn set_identity(e: Option<ParseEvidence>, source: IdentitySource) -> (r: Option<ParseEvidence>)
    ensures
        r == evidence_with(e, source),
{
    match e {
        Some(x) => {
            let mut y = x;
            y.account_identity_source = source;
            Some(y)
        },
        None => None,
    }
}

pub open spec fn resolved_event(v: Seq<SourceAccountAssignment>, e: UsageEvent) -> UsageEvent {
    let r = resolved(v, e.session.started_at, e.provider_account_id, e.parse_evidence);
    UsageEvent { provider_account_id: r.0, parse_evidence: r.1, ..e }
}

pub open spec fn summary_time(s: UsageSummary) -> Timestamp {
    match s.period_start {
        Some(t) => t,
        None => s.observed_at,
    }
}

pub open spec fn resolved_summary(v: Seq<SourceAccountAssignment>, s: UsageSummary) -> UsageSummary {
    let r = resolved(v, summary_time(s), s.provider_account_id, s.parse_evidence);
    UsageSummary { provider_account_id: r.0, parse_evidence: r.1, ..s }
}

pub fn apply_account_resolution_to_event(
    assignments: &[SourceAccountAssignment],
    event: UsageEvent,
) -> (r: UsageEvent)
    ensures
        r == resolved_event(assignments@, event),
{
    let mut r = event;
    let source = identity_source_of(&r.parse_evidence);
    if keep_detected_account_identity(&r.provider_account_id, source) {
        return r;
    }
    match assignment_for_timestamp(assignments, r.session.started_at) {
        Some(a) => {
            r.provider_account_id = Some(a.provider_account_id.clone());
            let evidence = r.parse_evidence.take();
            r.parse_evidence = set_identity(evidence, IdentitySource::SourceConfig);
        },
        None => {
            if should_clear_resolved_account(&r.provider_account_id, source) {
                r.provider_account_id = None;
                let evidence = r.parse_evidence.take();
                r.parse_evidence = set_identity(evidence, IdentitySource::Unresolved);
            }
        },
    }
    r
}

pub fn apply_account_resolution_to_summary(
    assignments: &[SourceAccountAssignment],
    summary: UsageSummary,
) -> (r: UsageSummary)
    ensures
        r == resolved_summary(assignments@, summary),
{
    let mut r = summary;
    let source = identity_source_of(&r.parse_evidence);
    if keep_detected_account_identity(&r.provider_account_id, source) {
        return r;
    }
    let t = match r.period_start {
        Some(t) => t,
        None => r.observed_at,
    };
    match assignment_for_timestamp(assignments, t) {
        Some(a) => {
            r.provider_account_id = Some(a.provider_account_id.clone());
            let evidence = r.parse_evidence.take();
            r.parse_evidence = set_identity(evidence, IdentitySource::SourceConfig);
        },
        None => {
            if should_clear_resolved_account(&r.provider_account_id, source) {
                r.provider_account_id = None;
                let evidence = r.parse_evidence.take();
                r.parse_evidence = set_identity(evidence, IdentitySource::Unresolved);
            }
        },
    }
    r
}

/// The events and summaries of a source once its assignments are applied.
pub fn reattribute_source_records(
    assignments: &[SourceAccountAssignment],
    events: &[UsageEvent],
    summaries: &[UsageSummary],
) -> (r: (Vec<UsageEvent>, Vec<UsageSummary>))
    ensures
        r.0@ == events@.map_values(|e: UsageEvent| resolved_event(assignments@, e)),
        r.1@ == summaries@.map_values(|s: UsageSummary| resolved_summary(assignments@, s)),
{
    let mut out_events: Vec<UsageEvent> = Vec::new();
    let mut i: usize = 0;
    while i < events.len()
        invariant
            i <= events.len(),
            out_events@.len() == i,
            forall|k: int|
                0 <= k < i ==> #[trigger] out_events@[k] == resolved_event(
                    assignments@,
                    events@[k],
                ),
        decreases events.len() - i,
    {
        out_events.push(apply_account_resolution_to_event(assignments, events[i].clone()));
        i = i + 1;
    }
    let mut out_summaries: Vec<UsageSummary> = Vec::new();
    let mut j: usize = 0;
    while j < summaries.len()
        invariant
            j <= summaries.len(),
            out_summaries@.len() == j,
            forall|k: int|
                0 <= k < j ==> #[trigger] out_summaries@[k] == resolved_summary(
                    assignments@,
                    summaries@[k],
                ),
        decreases summaries.len() - j,
    {
        out_summaries.push(apply_account_resolution_to_summary(assignments, summaries[j].clone()));
        j = j + 1;
    }
    proof {
        assert(out_events@ =~= events@.map_values(|e: UsageEvent| resolved_event(assignments@, e)));
        assert(out_summaries@ =~= summaries@.map_values(
            |s: UsageSummary| resolved_summary(assignments@, s),
        ));
    }
    (out_events, out_summaries)
}

/// Attributing usage a second time changes nothing.
pub proof fn attributing_twice_changes_nothing(
    v: Seq<SourceAccountAssignment>,
    e: UsageEvent,
    s: UsageSummary,
)
    ensures
        resolved_event(v, resolved_event(v, e)) == resolved_event(v, e),
        resolved_summary(v, resolved_summary(v, s)) == resolved_summary(v, s),
{
}

// ---------------------------------------------------------------------------
// What connecting keeps
// ---------------------------------------------------------------------------

/// Whether a plan writes or deletes the assignment with this identifier.
pub open spec fn touched(p: AssignmentPlan, id: Seq<char>) -> bool {
    ||| exists|i: int| 0 <= i < p.upserts@.len() && (#[trigger] p.upserts@[i]).assignment_id.0@ == id
    ||| exists|i: int| 0 <= i < p.deletes@.len() && (#[trigger] p.deletes@[i]).0@ == id
}

/// Whether an assignment is there once the plan is carried out: written by it, or
/// there before and neither written nor deleted by it.
pub open spec fn held_after(
    v: Seq<SourceAccountAssignment>,
    p: AssignmentPlan,
    x: SourceAccountAssignment,
) -> bool {
    ||| exists|i: int| 0 <= i < p.upserts@.len() && #[trigger] p.upserts@[i] == x
    ||| (exists|i: int| 0 <= i < v.len() && #[trigger] v[i] == x) && !touched(p, x.assignment_id.0@)
}

/// Whether a source's assignments are in order: each has an instant, starts before
/// the last instant of the time line, has an identifier of its own, and no two
/// overlap.
pub open spec fn consistent(v: Seq<SourceAccountAssignment>) -> bool {
    &&& forall|i: int|
        0 <= i < v.len() ==> proper_window((#[trigger] v[i]).started_at, v[i].ended_at)
            && v[i].started_at.at() < last_instant().at()
    &&& forall|i: int, j: int|
        0 <= i < v.len() && 0 <= j < v.len() && i != j ==> !(#[trigger] v[i]).overlaps(
            (#[trigger] v[j]).started_at,
            v[j].ended_at,
        ) && v[i].assignment_id.0@ != v[j].assignment_id.0@
}

/// Whether identifiers that a plan writes are new, or those of the assignment
/// that gives way.
pub open spec fn fresh_ids(
    v: Seq<SourceAccountAssignment>,
    p: AssignmentPlan,
    start: Timestamp,
    end: Option<Timestamp>,
) -> bool {
    forall|i: int, k: int|
        0 <= i < v.len() && 0 <= k < p.upserts@.len() && (#[trigger] v[i]).assignment_id.0@ == (
        #[trigger] p.upserts@[k]).assignment_id.0@ ==> v[i].overlaps(start, end)
}

/// An assignment that does not overlap the period stays as it is.
proof fn lemma_others_stay(
    v: Seq<SourceAccountAssignment>,
    p: AssignmentPlan,
    source: SourceLocation,
    account: ProviderAccountId,
    start: Timestamp,
    end: Option<Timestamp>,
    now: Timestamp,
    i: int,
)
    requires
        consistent(v),
        overlaps_of(v, start, end).len() <= 1,
        connects(p, v, source, account, start, end, now),
        fresh_ids(v, p, start, end),
        0 <= i < v.len(),
        !v[i].overlaps(start, end),
    ensures
        !touched(p, v[i].assignment_id.0@),
        held_after(v, p, v[i]),
{
    let o = overlaps_of(v, start, end);
    lemma_overlap_places(v, start, end, v.len() as int);
    if o.len() == 1 {
        let k = o[0];
        assert(v[k].overlaps(start, end));
        assert(k != i);
        assert(v[k].assignment_id.0@ != v[i].assignment_id.0@);
    }
    if touched(p, v[i].assignment_id.0@) {
        if exists|k: int|
            0 <= k < p.upserts@.len() && (#[trigger] p.upserts@[k]).assignment_id.0@
                == v[i].assignment_id.0@ {
            let k = choose|k: int|
                0 <= k < p.upserts@.len() && (#[trigger] p.upserts@[k]).assignment_id.0@
                    == v[i].assignment_id.0@;
            assert(v[i].overlaps(start, end));
        } else {
            let k = choose|k: int|
                0 <= k < p.deletes@.len() && (#[trigger] p.deletes@[k]).0@
                    == v[i].assignment_id.0@;
            assert(p.deletes@[k].0@ == v[o[0]].assignment_id.0@);
        }
    }
}

/// What is held after a plan was there before without overlapping the period, or
/// is written by the plan.
proof fn lemma_held_cases(
    v: Seq<SourceAccountAssignment>,
    p: AssignmentPlan,
    source: SourceLocation,
    account: ProviderAccountId,
    start: Timestamp,
    end: Option<Timestamp>,
    now: Timestamp,
    x: SourceAccountAssignment,
)
    requires
        consistent(v),
        overlaps_of(v, start, end).len() <= 1,
        connects(p, v, source, account, start, end, now),
        held_after(v, p, x),
        p.upserts@.len() > 0,
    ensures
        (exists|i: int| 0 <= i < p.upserts@.len() && #[trigger] p.upserts@[i] == x) || (exists|i: int|
            0 <= i < v.len() && #[trigger] v[i] == x && !x.overlaps(start, end)),
{
    let o = overlaps_of(v, start, end);
    lemma_overlap_places(v, start, end, v.len() as int);
    if !(exists|i: int| 0 <= i < p.upserts@.len() && #[trigger] p.upserts@[i] == x) {
        let i = choose|i: int| 0 <= i < v.len() && #[trigger] v[i] == x;
        if v[i].overlaps(start, end) {
            assert(o.contains(i));
            assert(o[0] == i);
            let e = v[i];
            // The overlapping assignment is deleted or written anew.
            if e.provider_account_id.0@ == account.0@ {
                if e.assignment_id.0@ == p.assignment.assignment_id.0@ {
                    assert(p.upserts@[0].assignment_id.0@ == e.assignment_id.0@);
                } else {
                    assert(p.deletes@[0].0@ == e.assignment_id.0@);
                }
            } else if keeps_front(e, start) {
                assert(p.upserts@[0].assignment_id.0@ == e.assignment_id.0@);
            } else {
                assert(p.deletes@[0].0@ == e.assignment_id.0@);
            }
            assert(touched(p, x.assignment_id.0@));
        }
    }
}

/// Whether a written assignment lies within the period, or within the assignment
/// that gives way and outside the period.
proof fn lemma_written_apart(
    v: Seq<SourceAccountAssignment>,
    p: AssignmentPlan,
    source: SourceLocation,
    account: ProviderAccountId,
    start: Timestamp,
    end: Option<Timestamp>,
    now: Timestamp,
    k: int,
    i: int,
)
    requires
        consistent(v),
        proper_window(start, end),
        start.at() < last_instant().at(),
        overlaps_of(v, start, end).len() <= 1,
        connects(p, v, source, account, start, end, now),
        0 <= k < p.upserts@.len(),
        0 <= i < v.len(),
        !v[i].overlaps(start, end),
    ensures
        !v[i].overlaps(p.upserts@[k].started_at, p.upserts@[k].ended_at),
{
    let o = overlaps_of(v, start, end);
    lemma_overlap_places(v, start, end, v.len() as int);
    if o.len() == 1 {
        let e = v[o[0]];
        assert(e.overlaps(start, end));
        assert(o[0] != i);
        assert(!v[i].overlaps(e.started_at, e.ended_at));
    }
}

proof fn lemma_written_disjoint(
    v: Seq<SourceAccountAssignment>,
    p: AssignmentPlan,
    source: SourceLocation,
    account: ProviderAccountId,
    start: Timestamp,
    end: Option<Timestamp>,
    now: Timestamp,
    k: int,
    l: int,
)
    requires
        consistent(v),
        proper_window(start, end),
        overlaps_of(v, start, end).len() <= 1,
        connects(p, v, source, account, start, end, now),
        0 <= k < p.upserts@.len(),
        0 <= l < p.upserts@.len(),
        k != l,
    ensures
        !p.upserts@[l].overlaps(p.upserts@[k].started_at, p.upserts@[k].ended_at),
{
    let o = overlaps_of(v, start, end);
    lemma_overlap_places(v, start, end, v.len() as int);
    if o.len() == 1 {
        let e = v[o[0]];
        assert(e.overlaps(start, end));
    }
}

/// After connecting, no two assignments of the source overlap.
pub proof fn connecting_leaves_no_overlap(
    v: Seq<SourceAccountAssignment>,
    p: AssignmentPlan,
    source: SourceLocation,
    account: ProviderAccountId,
    start: Timestamp,
    end: Option<Timestamp>,
    now: Timestamp,
    x: SourceAccountAssignment,
    y: SourceAccountAssignment,
)
    requires
        consistent(v),
        proper_window(start, end),
        start.at() < last_instant().at(),
        overlaps_of(v, start, end).len() <= 1,
        connects(p, v, source, account, start, end, now),
        held_after(v, p, x),
        held_after(v, p, y),
        x != y,
    ensures
        !x.overlaps(y.started_at, y.ended_at),
{
    if p.upserts@.len() == 0 {
        let i = choose|i: int| 0 <= i < v.len() && #[trigger] v[i] == x;
        let j = choose|j: int| 0 <= j < v.len() && #[trigger] v[j] == y;
        assert(i != j);
        assert(!v[i].overlaps(v[j].started_at, v[j].ended_at));
    } else {
        lemma_held_cases(v, p, source, account, start, end, now, x);
        lemma_held_cases(v, p, source, account, start, end, now, y);
        if exists|i: int| 0 <= i < p.upserts@.len() && #[trigger] p.upserts@[i] == x {
            let k = choose|i: int| 0 <= i < p.upserts@.len() && #[trigger] p.upserts@[i] == x;
            if exists|i: int| 0 <= i < p.upserts@.len() && #[trigger] p.upserts@[i] == y {
                let l = choose|i: int| 0 <= i < p.upserts@.len() && #[trigger] p.upserts@[i] == y;
                lemma_written_disjoint(v, p, source, account, start, end, now, l, k);
            } else {
                let j = choose|j: int|
                    0 <= j < v.len() && #[trigger] v[j] == y && !y.overlaps(start, end);
                lemma_written_apart(v, p, source, account, start, end, now, k, j);
            }
        } else {
            let i = choose|i: int|
                0 <= i < v.len() && #[trigger] v[i] == x && !x.overlaps(start, end);
            if exists|i: int| 0 <= i < p.upserts@.len() && #[trigger] p.upserts@[i] == y {
                let l = choose|i: int| 0 <= i < p.upserts@.len() && #[trigger] p.upserts@[i] == y;
                lemma_written_apart(v, p, source, account, start, end, now, l, i);
            } else {
                let j = choose|j: int|
                    0 <= j < v.len() && #[trigger] v[j] == y && !y.overlaps(start, end);
                assert(i != j);
                assert(!v[i].overlaps(v[j].started_at, v[j].ended_at));
            }
        }
    }
}

/// Whether an assignment to the account holds at `t`.
pub open spec fn assigned_before(v: Seq<SourceAccountAssignment>, t: Timestamp, account: Seq<char>) -> bool {
    exists|i: int|
        0 <= i < v.len() && (#[trigger] v[i]).holds_at(t) && v[i].provider_account_id.0@ == account
}

pub open spec fn assigned_after(
    v: Seq<SourceAccountAssignment>,
    p: AssignmentPlan,
    t: Timestamp,
    account: Seq<char>,
) -> bool {
    exists|x: SourceAccountAssignment| #[trigger]
        held_after(v, p, x) && x.holds_at(t) && x.provider_account_id.0@ == account
}

/// After connecting, the source belongs to the account throughout the period.
pub proof fn connecting_assigns_the_whole_period(
    v: Seq<SourceAccountAssignment>,
    p: AssignmentPlan,
    source: SourceLocation,
    account: ProviderAccountId,
    start: Timestamp,
    end: Option<Timestamp>,
    now: Timestamp,
    t: Timestamp,
)
    requires
        consistent(v),
        proper_window(start, end),
        overlaps_of(v, start, end).len() <= 1,
        connects(p, v, source, account, start, end, now),
        in_period(t, start, end),
    ensures
        assigned_after(v, p, t, account.0@),
{
    let o = overlaps_of(v, start, end);
    lemma_overlap_places(v, start, end, v.len() as int);
    let x = p.assignment;
    assert(x.holds_at(t));
    if p.upserts@.len() == 0 {
        assert(v[o[0]] == x);
        assert(!touched(p, x.assignment_id.0@));
        assert(held_after(v, p, x));
    } else {
        assert(p.upserts@[p.upserts@.len() - 1] == x);
        assert(held_after(v, p, x));
    }
}

/// After connecting, whom the source belongs to is unchanged outside the period.
pub proof fn connecting_keeps_the_rest(
    v: Seq<SourceAccountAssignment>,
    p: AssignmentPlan,
    source: SourceLocation,
    account: ProviderAccountId,
    start: Timestamp,
    end: Option<Timestamp>,
    now: Timestamp,
    t: Timestamp,
    other: Seq<char>,
)
    requires
        consistent(v),
        proper_window(start, end),
        start.at() < last_instant().at(),
        overlaps_of(v, start, end).len() <= 1,
        connects(p, v, source, account, start, end, now),
        fresh_ids(v, p, start, end),
        !in_period(t, start, end),
        t.at() < last_instant().at(),
    ensures
        assigned_after(v, p, t, other) == assigned_before(v, t, other),
{
    let o = overlaps_of(v, start, end);
    lemma_overlap_places(v, start, end, v.len() as int);
    if assigned_before(v, t, other) {
        let i = choose|i: int|
            0 <= i < v.len() && (#[trigger] v[i]).holds_at(t) && v[i].provider_account_id.0@
                == other;
        if !v[i].overlaps(start, end) {
            lemma_others_stay(v, p, source, account, start, end, now, i);
            assert(held_after(v, p, v[i]));
        } else {
            assert(o.contains(i));
            assert(o[0] == i);
            let e = v[i];
            if p.upserts@.len() == 0 {
                assert(!touched(p, e.assignment_id.0@));
                assert(held_after(v, p, e));
            } else if e.provider_account_id.0@ == account.0@ {
                assert(p.upserts@[0].holds_at(t));
                assert(held_after(v, p, p.upserts@[0]));
            } else if t.at() < start.at() {
                assert(keeps_front(e, start));
                assert(p.upserts@[0].holds_at(t));
                assert(held_after(v, p, p.upserts@[0]));
            } else {
                assert(keeps_tail(e, end));
                let k = p.upserts@.len() - 2;
                assert(is_tail(p.upserts@[k], e, source, end->0, now));
                assert(p.upserts@[k].holds_at(t));
                assert(held_after(v, p, p.upserts@[k]));
            }
        }
    }
    if assigned_after(v, p, t, other) {
        let x = choose|x: SourceAccountAssignment| #[trigger]
            held_after(v, p, x) && x.holds_at(t) && x.provider_account_id.0@ == other;
        if p.upserts@.len() > 0 {
            lemma_held_cases(v, p, source, account, start, end, now, x);
        }
        if exists|i: int| 0 <= i < v.len() && #[trigger] v[i] == x {
            let i = choose|i: int| 0 <= i < v.len() && #[trigger] v[i] == x;
            assert(v[i].holds_at(t));
        } else {
            let k = choose|k: int| 0 <= k < p.upserts@.len() && #[trigger] p.upserts@[k] == x;
            if o.len() == 1 {
                let e = v[o[0]];
                assert(e.overlaps(start, end));
                assert(e.holds_at(t));
                assert(e.provider_account_id.0@ == other);
            }
        }
    }
}

proof fn lemma_single_overlap(
    v: Seq<SourceAccountAssignment>,
    start: Timestamp,
    end: Option<Timestamp>,
    i: int,
    n: int,
)
    requires
        0 <= i < v.len(),
        0 <= n <= v.len(),
        v[i].overlaps(start, end),
        forall|k: int| 0 <= k < v.len() && k != i ==> !(#[trigger] v[k]).overlaps(start, end),
    ensures
        overlap_places(v, start, end, n) == if i < n {
            seq![i]
        } else {
            Seq::empty()
        },
    decreases n,
{
    if n > 0 {
        lemma_single_overlap(v, start, end, i, n - 1);
        assert(overlap_places(v, start, end, n) =~= if i < n {
            seq![i]
        } else {
            Seq::empty()
        });
    }
}

/// Connecting a source to an account for exactly the period of another account's
/// assignment is never refused and hands the period over: that assignment goes,
/// one of the account comes, and no other is touched unless it has the new one's
/// identifier.
pub proof fn connecting_hands_a_whole_assignment_over(
    v: Seq<SourceAccountAssignment>,
    i: int,
    p: AssignmentPlan,
    source: SourceLocation,
    account: ProviderAccountId,
    now: Timestamp,
)
    requires
        consistent(v),
        0 <= i < v.len(),
        v[i].provider_account_id.0@ != account.0@,
        connects(p, v, source, account, v[i].started_at, v[i].ended_at, now),
    ensures
        proper_window(v[i].started_at, v[i].ended_at),
        overlaps_of(v, v[i].started_at, v[i].ended_at).len() == 1,
        p.deletes@ == seq![v[i].assignment_id],
        p.upserts@ == seq![p.assignment],
        p.assignment.provider_account_id.0@ == account.0@,
        p.assignment.started_at == v[i].started_at,
        p.assignment.ended_at == v[i].ended_at,
        !held_after(v, p, v[i]),
        forall|x: SourceAccountAssignment| #[trigger]
            held_after(v, p, x) && x != p.assignment ==> v.contains(x) && x != v[i],
{
    let a = v[i];
    let (start, end) = (a.started_at, a.ended_at);
    assert(a.overlaps(start, end));
    assert forall|k: int| 0 <= k < v.len() && k != i implies !(#[trigger] v[k]).overlaps(
        start,
        end,
    ) by {
        assert(!v[k].overlaps(v[i].started_at, v[i].ended_at));
    }
    lemma_single_overlap(v, start, end, i, v.len() as int);
    assert(overlaps_of(v, start, end)[0] == i);
    assert(!keeps_front(a, start));
    assert(!keeps_tail(a, end));
    assert(p.deletes@[0].0@ == a.assignment_id.0@);
    assert(touched(p, a.assignment_id.0@));
    assert(p.upserts@[0] == p.assignment);
    assert(p.assignment != a);
    assert forall|x: SourceAccountAssignment| #[trigger]
        held_after(v, p, x) && x != p.assignment implies v.contains(x) && x != v[i] by {
        if exists|k: int| 0 <= k < p.upserts@.len() && #[trigger] p.upserts@[k] == x {
            let k = choose|k: int| 0 <= k < p.upserts@.len() && #[trigger] p.upserts@[k] == x;
            assert(k == 0);
        } else {
            let k = choose|k: int| 0 <= k < v.len() && #[trigger] v[k] == x;
            assert(v[k] == x);
        }
    }
}

} // verus!
