//! Role presets and the authorisation rules that depend on them.
use vstd::prelude::*;
use crate::text::{norm_key, norm_key_of, chars_eq_str, lemma_norm_key_idempotent, lemma_norm_key_of_plain};
use crate::error::{ApiError, ErrView, forbidden};

verus! {

#[derive(Debug, Clone, Copy, PartialEq, Eq, Structural)]
pub enum RolePreset {
    Owner,
    Operator,
    Viewer,
}

/// The role a header value names: trimmed, ASCII case-insensitive.
pub open spec fn role_of(raw: Seq<char>) -> Option<RolePreset> {
    let k = norm_key(raw);
    if k == "owner"@ {
        Some(RolePreset::Owner)
    } else if k == "operator"@ {
        Some(RolePreset::Operator)
    } else if k == "viewer"@ {
        Some(RolePreset::Viewer)
    } else {
        None
    }
}

pub open spec fn role_name(r: RolePreset) -> Seq<char> {
    match r {
        RolePreset::Owner => "owner"@,
        RolePreset::Operator => "operator"@,
        RolePreset::Viewer => "viewer"@,
    }
}

impl RolePreset {
    pub fn parse(raw: &str) -> (r: Option<RolePreset>)
        ensures
            r == role_of(raw@),
    {
        let k = norm_key_of(raw);
        if chars_eq_str(k.as_slice(), "owner") {
            Some(RolePreset::Owner)
        } else if chars_eq_str(k.as_slice(), "operator") {
            Some(RolePreset::Operator)
        } else if chars_eq_str(k.as_slice(), "viewer") {
            Some(RolePreset::Viewer)
        } else {
            None
        }
    }

    pub fn as_str(self) -> (r: &'static str)
        ensures
            r@ == role_name(self),
    {
        match self {
            RolePreset::Owner => "owner",
            RolePreset::Operator => "operator",
            RolePreset::Viewer => "viewer",
        }
    }
}

/// `ensure_trigger_mutation_role`: viewers cannot change triggers.
pub fn ensure_trigger_mutation_role(role: RolePreset) -> (r: Result<(), ApiError>)
    ensures
        role != RolePreset::Viewer <==> r is Ok,
        r matches Err(e) ==> e@ == forbidden("viewer role cannot mutate triggers"@),
{
    match role {
        RolePreset::Viewer => Err(ApiError::forbidden("viewer role cannot mutate triggers")),
        _ => Ok(()),
    }
}

/// `ensure_usage_query_role`: viewers cannot read reporting endpoints.
pub fn ensure_usage_query_role(role: RolePreset) -> (r: Result<(), ApiError>)
    ensures
        role != RolePreset::Viewer <==> r is Ok,
        r matches Err(e) ==> e@ == forbidden("viewer role cannot query reporting endpoints"@),
{
    match role {
        RolePreset::Viewer => Err(ApiError::forbidden("viewer role cannot query reporting endpoints")),
        _ => Ok(()),
    }
}

/// `ensure_owner_role`: only owners pass; others get `message`.
pub fn ensure_owner_role(role: RolePreset, message: &str) -> (r: Result<(), ApiError>)
    ensures
        role == RolePreset::Owner <==> r is Ok,
        r matches Err(e) ==> e@ == forbidden(message@),
{
    match role {
        RolePreset::Owner => Ok(()),
        _ => Err(ApiError::forbidden(message)),
    }
}

/// `ensure_memory_write_role`: viewers cannot write memory.
pub fn ensure_memory_write_role(role: RolePreset) -> (r: Result<(), ApiError>)
    ensures
        role != RolePreset::Viewer <==> r is Ok,
        r matches Err(e) ==> e@ == forbidden("viewer role cannot write memory"@),
{
    match role {
        RolePreset::Viewer => Err(ApiError::forbidden("viewer role cannot write memory")),
        _ => Ok(()),
    }
}

/// Who a trigger created by `role` runs as: owners choose freely, operators
/// only themselves and only with a known user id, viewers are refused.
pub open spec fn trigger_actor_spec(
    role: RolePreset,
    actor: Option<u128>,
    requested: Option<u128>,
) -> Result<Option<u128>, ErrView> {
    match role {
        RolePreset::Owner => Ok(requested),
        RolePreset::Operator => match actor {
            None => Err(forbidden("operator role requires x-user-id for trigger mutation"@)),
            Some(a) => match requested {
                Some(q) if q != a => Err(forbidden("operator can only create triggers for self"@)),
                _ => Ok(Some(a)),
            },
        },
        RolePreset::Viewer => Err(forbidden("viewer role cannot mutate triggers"@)),
    }
}

/// `resolve_trigger_actor_for_create`.
pub fn resolve_trigger_actor_for_create(
    role: RolePreset,
    actor_user_id: Option<u128>,
    requested_triggered_by_user_id: Option<u128>,
) -> (r: Result<Option<u128>, ApiError>)
    ensures
        match (r, trigger_actor_spec(role, actor_user_id, requested_triggered_by_user_id)) {
            (Ok(a), Ok(b)) => a == b,
            (Err(e), Err(f)) => e@ == f,
            _ => false,
        },
        role == RolePreset::Owner ==> r == Ok::<Option<u128>, ApiError>(requested_triggered_by_user_id),
        role == RolePreset::Viewer ==> r is Err,
        role == RolePreset::Operator ==> (r is Ok <==> (actor_user_id is Some && (
        requested_triggered_by_user_id is None || requested_triggered_by_user_id == actor_user_id))),
        role == RolePreset::Operator ==> (r matches Ok(a) ==> a == actor_user_id),
{
    match role {
        RolePreset::Owner => Ok(requested_triggered_by_user_id),
        RolePreset::Operator => {
            let actor = match actor_user_id {
                Some(a) => a,
                None => {
                    return Err(
                        ApiError::forbidden("operator role requires x-user-id for trigger mutation"),
                    )
                },
            };
            if let Some(requested) = requested_triggered_by_user_id {
                if requested != actor {
                    return Err(ApiError::forbidden("operator can only create triggers for self"));
                }
            }
            Ok(Some(actor))
        },
        RolePreset::Viewer => Err(ApiError::forbidden("viewer role cannot mutate triggers")),
    }
}

/// `ensure_trigger_operator_ownership`: an operator may only touch triggers
/// that run as the operator's own user id.
pub fn ensure_trigger_operator_ownership(
    role: RolePreset,
    actor_user_id: Option<u128>,
    trigger_owner_user_id: Option<u128>,
) -> (r: Result<(), ApiError>)
    ensures
        r is Ok <==> (role != RolePreset::Operator || (actor_user_id is Some
            && trigger_owner_user_id == actor_user_id)),
        r matches Err(e) ==> (actor_user_id is None ==> e@ == forbidden(
            "operator role requires x-user-id for trigger mutation"@,
        )) && (actor_user_id is Some ==> e@ == forbidden(
            "operator cannot mutate triggers owned by another user"@,
        )),
{
    match role {
        RolePreset::Operator => {
            let actor = match actor_user_id {
                Some(a) => a,
                None => {
                    return Err(
                        ApiError::forbidden("operator role requires x-user-id for trigger mutation"),
                    )
                },
            };
            match trigger_owner_user_id {
                Some(owner) if owner == actor => Ok(()),
                _ => Err(ApiError::forbidden("operator cannot mutate triggers owned by another user")),
            }
        },
        _ => Ok(()),
    }
}

/// The three role names, trimmed and in any ASCII case, and nothing else,
/// name a role: `owner`, `operator`, `viewer`.
pub proof fn law_role_spellings(raw: Seq<char>)
    ensures
        norm_key(raw) == "owner"@ ==> role_of(raw) == Some(RolePreset::Owner),
        norm_key(raw) == "operator"@ ==> role_of(raw) == Some(RolePreset::Operator),
        norm_key(raw) == "viewer"@ ==> role_of(raw) == Some(RolePreset::Viewer),
        norm_key(raw) != "owner"@ && norm_key(raw) != "operator"@ && norm_key(raw) != "viewer"@
            ==> role_of(raw) is None,
        role_name(RolePreset::Owner) == "owner"@,
        role_name(RolePreset::Operator) == "operator"@,
        role_name(RolePreset::Viewer) == "viewer"@,
{
    reveal_strlit("owner");
    reveal_strlit("operator");
    reveal_strlit("viewer");
    assert("owner"@.len() != "operator"@.len());
    assert("owner"@.len() != "viewer"@.len());
    assert("operator"@.len() != "viewer"@.len());
}

/// Role names round-trip, and parsing a role ignores surrounding
/// whitespace and ASCII case: the role of a text is the role of its
/// trimmed, lower-cased form.
pub proof fn law_role_names_round_trip(r: RolePreset, raw: Seq<char>)
    ensures
        role_of(role_name(r)) == Some(r),
        role_of(raw) == role_of(norm_key(raw)),
{
    lemma_norm_key_idempotent(raw);
    reveal_strlit("owner");
    reveal_strlit("operator");
    reveal_strlit("viewer");
    lemma_norm_key_of_plain("owner"@);
    lemma_norm_key_of_plain("operator"@);
    lemma_norm_key_of_plain("viewer"@);
    assert("owner"@.len() != "operator"@.len());
    assert("owner"@.len() != "viewer"@.len());
    assert("operator"@.len() != "viewer"@.len());
}

} // verus!
