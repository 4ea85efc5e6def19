//! Turning heartbeat intents into triggers: what an apply request needs,
//! the schedule each candidate is matched and created by, and the tally of
//! planned, created and already existing triggers.
use vstd::prelude::*;
use crate::text::{trim_non_empty_spec};
use crate::error::{ApiError, ErrView, bad_request, forbidden, conflict, internal, own};
use crate::roles::{RolePreset, trigger_actor_spec, resolve_trigger_actor_for_create};

verus! {

/// What a heartbeat intent schedules.
#[derive(Debug, Clone, Copy, PartialEq, Eq, Structural)]
pub enum HeartbeatIntentKind {
    Interval,
    Cron,
}

impl HeartbeatIntentKind {
    pub fn as_str(self) -> (r: &'static str)
        ensures
            r@ == match self {
                HeartbeatIntentKind::Interval => "interval"@,
                HeartbeatIntentKind::Cron => "cron"@,
            },
    {
        match self {
            HeartbeatIntentKind::Interval => "interval",
            HeartbeatIntentKind::Cron => "cron",
        }
    }
}

/// A trigger the heartbeat file asks for.
#[derive(Debug)]
pub struct HeartbeatCandidate {
    pub kind: HeartbeatIntentKind,
    pub recipe_id: String,
    pub interval_seconds: Option<i64>,
    pub cron_expression: Option<String>,
    pub timezone: Option<String>,
    pub max_inflight_runs: i32,
    pub jitter_seconds: i32,
}

/// The schedule a candidate's trigger is found and created by.
#[derive(Debug)]
pub enum HeartbeatSchedule {
    Interval { interval_seconds: i64 },
    Cron { cron_expression: String, timezone: String },
}

/// An interval candidate needs its period, a cron candidate its
/// expression; the time zone defaults to UTC.
pub fn heartbeat_schedule(c: &HeartbeatCandidate) -> (r: Result<HeartbeatSchedule, ApiError>)
    ensures
        match c.kind {
            HeartbeatIntentKind::Interval => match c.interval_seconds {
                Some(s) => r matches Ok(HeartbeatSchedule::Interval { interval_seconds }) && interval_seconds == s,
                None => r matches Err(e) && e@ == internal(
                    "heartbeat interval candidate missing interval seconds"@,
                ),
            },
            HeartbeatIntentKind::Cron => match c.cron_expression {
                Some(x) => r matches Ok(HeartbeatSchedule::Cron { cron_expression, timezone }) && cron_expression@
                    == x@ && timezone@ == match c.timezone {
                    Some(z) => z@,
                    None => "UTC"@,
                },
                None => r matches Err(e) && e@ == internal(
                    "heartbeat cron candidate missing cron expression"@,
                ),
            },
        },
{
    match c.kind {
        HeartbeatIntentKind::Interval => match c.interval_seconds {
            Some(s) => Ok(HeartbeatSchedule::Interval { interval_seconds: s }),
            None => Err(ApiError::internal("heartbeat interval candidate missing interval seconds")),
        },
        HeartbeatIntentKind::Cron => match &c.cron_expression {
            Some(x) => {
                let tz = match &c.timezone {
                    Some(z) => z.clone(),
                    None => own("UTC"),
                };
                Ok(HeartbeatSchedule::Cron { cron_expression: x.clone(), timezone: tz })
            },
            None => Err(ApiError::internal("heartbeat cron candidate missing cron expression")),
        },
    }
}

/// The rules on a materialization request: applying needs a confirmed
/// approval and a known user; cron triggers get 3 attempts unless 1 to 20
/// are asked for.
pub open spec fn materialize_check_spec(
    apply: bool,
    approval_confirmed: bool,
    actor_user_id: Option<u128>,
    cron_max_attempts: Option<i32>,
) -> Result<i32, ErrView> {
    let attempts = match cron_max_attempts {
        Some(a) => a,
        None => 3i32,
    };
    if apply && !approval_confirmed {
        Err(forbidden("heartbeat materialization requires approval_confirmed=true"@))
    } else if apply && actor_user_id is None {
        Err(forbidden("heartbeat materialization requires x-user-id for approval attribution"@))
    } else if !(1 <= attempts <= 20) {
        Err(bad_request("cron_max_attempts must be between 1 and 20"@))
    } else {
        Ok(attempts)
    }
}

/// Checks a materialization request and gives the attempts cron triggers
/// get.
pub fn check_materialize_request(
    apply: bool,
    approval_confirmed: bool,
    actor_user_id: Option<u128>,
    cron_max_attempts: Option<i32>,
) -> (r: Result<i32, ApiError>)
    ensures
        match (r, materialize_check_spec(apply, approval_confirmed, actor_user_id, cron_max_attempts)) {
            (Ok(a), Ok(b)) => a == b,
            (Err(e), Err(f)) => e@ == f,
            _ => false,
        },
        r is Ok <==> ((!apply || (approval_confirmed && actor_user_id is Some)) && (
        cron_max_attempts matches Some(a) ==> 1 <= a <= 20)),
        r matches Ok(a) ==> (cron_max_attempts is None ==> a == 3),
        r matches Ok(a) ==> (cron_max_attempts matches Some(v) ==> a == v),
{
    let attempts = match cron_max_attempts {
        Some(a) => a,
        None => 3,
    };
    if apply && !approval_confirmed {
        return Err(ApiError::forbidden("heartbeat materialization requires approval_confirmed=true"));
    }
    if apply && actor_user_id.is_none() {
        return Err(
            ApiError::forbidden(
                "heartbeat materialization requires x-user-id for approval attribution",
            ),
        );
    }
    if !(1 <= attempts && attempts <= 20) {
        return Err(ApiError::bad_request("cron_max_attempts must be between 1 and 20"));
    }
    Ok(attempts)
}

/// Who materialized triggers run as: nobody while only planning, otherwise
/// as for any trigger created by the caller.
pub fn materialize_trigger_actor(
    apply: bool,
    role: RolePreset,
    actor_user_id: Option<u128>,
    requested_user_id: Option<u128>,
) -> (r: Result<Option<u128>, ApiError>)
    ensures
        !apply ==> r == Ok::<Option<u128>, ApiError>(None),
        apply ==> match (r, trigger_actor_spec(role, actor_user_id, requested_user_id)) {
            (Ok(a), Ok(b)) => a == b,
            (Err(e), Err(f)) => e@ == f,
            _ => false,
        },
{
    if apply {
        resolve_trigger_actor_for_create(role, actor_user_id, requested_user_id)
    } else {
        Ok(None)
    }
}

/// Applying is refused while the heartbeat file has issues.
pub fn ensure_heartbeat_apply_clean(apply: bool, issue_count: usize) -> (r: Result<(), ApiError>)
    ensures
        (!apply || issue_count == 0) <==> r is Ok,
        r matches Err(e) ==> e@ == conflict(
            "heartbeat compile produced issues; resolve issues before apply"@,
        ),
{
    if apply && issue_count > 0 {
        Err(ApiError::conflict("heartbeat compile produced issues; resolve issues before apply"))
    } else {
        Ok(())
    }
}

/// What becomes of one candidate.
#[derive(Debug, Clone, Copy, PartialEq, Eq, Structural)]
pub enum CandidateOutcome {
    /// Only planned: nothing was applied.
    Planned,
    /// A matching trigger exists already.
    Existing(u128),
    /// A trigger is to be created.
    Create,
}

/// Without apply every candidate is planned; with apply an existing
/// matching trigger is reused, and otherwise one is created.
pub fn candidate_outcome(apply: bool, existing_trigger_id: Option<u128>) -> (r: CandidateOutcome)
    ensures
        r == if !apply {
            CandidateOutcome::Planned
        } else {
            match existing_trigger_id {
                Some(id) => CandidateOutcome::Existing(id),
                None => CandidateOutcome::Create,
            }
        },
{
    if !apply {
        CandidateOutcome::Planned
    } else {
        match existing_trigger_id {
            Some(id) => CandidateOutcome::Existing(id),
            None => CandidateOutcome::Create,
        }
    }
}

/// The status a candidate is reported with.
#[derive(Debug, Clone, Copy, PartialEq, Eq, Structural)]
pub enum CandidateStatus {
    Planned,
    Existing,
    Created,
}

impl CandidateStatus {
    pub fn as_str(self) -> (r: &'static str)
        ensures
            r@ == match self {
                CandidateStatus::Planned => "planned"@,
                CandidateStatus::Existing => "existing"@,
                CandidateStatus::Created => "created"@,
            },
    {
        match self {
            CandidateStatus::Planned => "planned",
            CandidateStatus::Existing => "existing",
            CandidateStatus::Created => "created",
        }
    }
}

/// The counts of a materialization.
#[derive(Debug, Clone, Copy, PartialEq, Eq, Structural)]
pub struct MaterializeTally {
    pub planned_count: usize,
    pub created_count: usize,
    pub existing_count: usize,
}

impl MaterializeTally {
    pub open spec fn total(self) -> int {
        self.planned_count + self.created_count + self.existing_count
    }

    pub fn new() -> (t: MaterializeTally)
        ensures
            t.planned_count == 0,
            t.created_count == 0,
            t.existing_count == 0,
    {
        MaterializeTally { planned_count: 0, created_count: 0, existing_count: 0 }
    }

    /// Counts one more candidate under its status.
    pub fn record(&mut self, status: CandidateStatus)
        requires
            old(self).total() < usize::MAX,
        ensures
            final(self).total() == old(self).total() + 1,
            final(self).planned_count == old(self).planned_count + if status
                == CandidateStatus::Planned {
                1int
            } else {
                0int
            },
            final(self).created_count == old(self).created_count + if status
                == CandidateStatus::Created {
                1int
            } else {
                0int
            },
            final(self).existing_count == old(self).existing_count + if status
                == CandidateStatus::Existing {
                1int
            } else {
                0int
            },
    {
        match status {
            CandidateStatus::Planned => self.planned_count = self.planned_count + 1,
            CandidateStatus::Created => self.created_count = self.created_count + 1,
            CandidateStatus::Existing => self.existing_count = self.existing_count + 1,
        }
    }
}

/// The tally of a sequence of statuses.
pub open spec fn tally_of(statuses: Seq<CandidateStatus>) -> (int, int, int)
    decreases statuses.len(),
{
    if statuses.len() == 0 {
        (0, 0, 0)
    } else {
        let (p, c, e) = tally_of(statuses.drop_last());
        match statuses.last() {
            CandidateStatus::Planned => (p + 1, c, e),
            CandidateStatus::Created => (p, c + 1, e),
            CandidateStatus::Existing => (p, c, e + 1),
        }
    }
}

/// The statuses of candidates handled as `candidate_outcome` decides, the
/// created ones once made.
pub open spec fn status_of(o: CandidateOutcome) -> CandidateStatus {
    match o {
        CandidateOutcome::Planned => CandidateStatus::Planned,
        CandidateOutcome::Existing(_) => CandidateStatus::Existing,
        CandidateOutcome::Create => CandidateStatus::Created,
    }
}

/// Every candidate is counted exactly once: the three counts add up to the
/// number of candidates, and a run that does not apply plans them all.
pub proof fn law_tally_counts_every_candidate(statuses: Seq<CandidateStatus>)
    ensures
        tally_of(statuses).0 + tally_of(statuses).1 + tally_of(statuses).2 == statuses.len(),
        (forall|i: int| 0 <= i < statuses.len() ==> statuses[i] == CandidateStatus::Planned) ==> tally_of(
            statuses,
        ) == (statuses.len() as int, 0int, 0int),
    decreases statuses.len(),
{
    if statuses.len() > 0 {
        let init = statuses.drop_last();
        law_tally_counts_every_candidate(init);
        if forall|i: int| 0 <= i < statuses.len() ==> statuses[i] == CandidateStatus::Planned {
            assert forall|i: int| 0 <= i < init.len() implies init[i] == CandidateStatus::Planned by {
                assert(init[i] == statuses[i]);
            }
            assert(statuses.last() == statuses[statuses.len() - 1]);
        }
    }
}

} // verus!
