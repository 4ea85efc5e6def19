//! Creating runs: the document a run's semantic dedupe key is the digest
//! of, and the capability counts its audit event records.
use vstd::prelude::*;
use crate::error::{own, ApiError, conflict};
use crate::json::{JsonValue, JsonField, canonical_of, canonicalize_json_for_semantic_dedupe};
use crate::ids::{uuid_text, uuid_to_text};
use crate::roles::{RolePreset, role_name};

verus! {

pub open spec fn is_text(v: JsonValue, t: Seq<char>) -> bool {
    v matches JsonValue::Str(s) && s@ == t
}

/// The document whose digest is a run's semantic dedupe key: tenant,
/// agent, triggering user (or null), recipe, role, and the input and
/// requested capabilities in canonical form, in that order.
pub open spec fn is_dedupe_payload(
    r: JsonValue,
    tenant_id: Seq<char>,
    agent_id: u128,
    triggered_by_user_id: Option<u128>,
    recipe_id: Seq<char>,
    role: RolePreset,
    input: JsonValue,
    requested_capabilities: JsonValue,
) -> bool {
    r matches JsonValue::Object(fs) && {
        let f = fs@;
        &&& f.len() == 7
        &&& f[0].key@ == "tenant_id"@ && is_text(f[0].value, tenant_id)
        &&& f[1].key@ == "agent_id"@ && is_text(f[1].value, uuid_text(agent_id))
        &&& f[2].key@ == "triggered_by_user_id"@ && match triggered_by_user_id {
            Some(u) => is_text(f[2].value, uuid_text(u)),
            None => f[2].value is Null,
        }
        &&& f[3].key@ == "recipe_id"@ && is_text(f[3].value, recipe_id)
        &&& f[4].key@ == "role_preset"@ && is_text(f[4].value, role_name(role))
        &&& f[5].key@ == "input"@ && canonical_of(input, f[5].value)
        &&& f[6].key@ == "requested_capabilities"@ && canonical_of(requested_capabilities, f[6].value)
    }
}

fn text_field(key: &str, text: String) -> (r: JsonField)
    ensures
        r.key@ == key@,
        is_text(r.value, text@),
{
    JsonField { key: own(key), value: JsonValue::Str(text) }
}

pub fn semantic_dedupe_payload(
    tenant_id: &str,
    agent_id: u128,
    triggered_by_user_id: Option<u128>,
    recipe_id: &str,
    role: RolePreset,
    input: &JsonValue,
    requested_capabilities: &JsonValue,
) -> (r: JsonValue)
    ensures
        is_dedupe_payload(
            r,
            tenant_id@,
            agent_id,
            triggered_by_user_id,
            recipe_id@,
            role,
            *input,
            *requested_capabilities,
        ),
{
    let mut fs: Vec<JsonField> = Vec::new();
    fs.push(text_field("tenant_id", own(tenant_id)));
    fs.push(text_field("agent_id", uuid_to_text(agent_id)));
    let user = match triggered_by_user_id {
        Some(u) => JsonValue::Str(uuid_to_text(u)),
        None => JsonValue::Null,
    };
    fs.push(JsonField { key: own("triggered_by_user_id"), value: user });
    fs.push(text_field("recipe_id", own(recipe_id)));
    fs.push(text_field("role_preset", own(role.as_str())));
    fs.push(
        JsonField {
            key: own("input"),
            value: canonicalize_json_for_semantic_dedupe(input),
        },
    );
    fs.push(
        JsonField {
            key: own("requested_capabilities"),
            value: canonicalize_json_for_semantic_dedupe(requested_capabilities),
        },
    );
    JsonValue::Object(fs)
}

/// The number of items of an array; zero for any other value (as the run
/// audit event counts capabilities).
pub fn json_array_len(v: &JsonValue) -> (r: usize)
    ensures
        r == match *v {
            JsonValue::Array(items) => items@.len(),
            _ => 0,
        },
{
    match v {
        JsonValue::Array(items) => items.len(),
        _ => 0,
    }
}

/// What a run request answers once the dedupe insert has run: the new run
/// with 201 when one was inserted; otherwise the active run holding the
/// same key with 200 (not new); and a conflict when that run finished in
/// between. The flag says whether the run is new.
pub fn run_create_outcome(created_id: Option<u128>, existing_id: Option<u128>) -> (r: Result<(u128, u16, bool), ApiError>)
    ensures
        match created_id {
            Some(c) => r == Ok::<(u128, u16, bool), ApiError>((c, 201u16, true)),
            None => match existing_id {
                Some(e) => r == Ok::<(u128, u16, bool), ApiError>((e, 200u16, false)),
                None => r matches Err(x) && x@ == conflict(
                    "run already exists in race with completion; retry request"@,
                ),
            },
        },
{
    match created_id {
        Some(c) => Ok((c, 201, true)),
        None => match existing_id {
            Some(e) => Ok((e, 200, false)),
            None => Err(ApiError::conflict("run already exists in race with completion; retry request")),
        },
    }
}

} // verus!
