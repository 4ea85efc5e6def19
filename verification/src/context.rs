//! Agent-context files: mutation modes and paths, who may change which
//! file, payload sizes, and the bootstrap workflow.
use vstd::prelude::*;
use vstd::string::StringSliceAdditionalSpecFns;
use crate::text::{
    ascii_lower, lower_chars, chars_eq, trim, norm_key, to_chars, trim_chars, from_chars, chars_eq_str, norm_key_of, trim_non_empty,
    trim_non_empty_spec, starts_with, ends_with, starts_with_str, ends_with_str, split_fields,
    split_on, vecs_view, join_with, join_chars, lemma_split_join, dec_nat, dec_u64, append_str,
    append_chars,
};
use crate::error::{ApiError, ErrView, bad_request, forbidden, conflict, internal, own, STATUS_INTERNAL};
use crate::roles::{RolePreset, ensure_owner_role, ensure_memory_write_role};
use crate::json::{JsonValue, JsonField, get, get_field, as_str, str_field, str_field_of, keys_unique, insert_field, json_str};
use crate::clock::{rfc3339_parses, check_rfc3339, rfc3339_of_nanos, format_rfc3339_nanos};
use crate::ids::{uuid_parse, parse_uuid, uuid_text, uuid_to_text};
use crate::settings::kept_fields;

verus! {

/// How a mutation changes a file.
#[derive(Debug, Clone, Copy, PartialEq, Eq, Structural)]
pub enum ContextMutationMode {
    Replace,
    Append,
}

pub open spec fn mode_name(m: ContextMutationMode) -> Seq<char> {
    match m {
        ContextMutationMode::Replace => "replace"@,
        ContextMutationMode::Append => "append"@,
    }
}

impl ContextMutationMode {
    pub fn as_str(self) -> (r: &'static str)
        ensures
            r@ == mode_name(self),
    {
        match self {
            ContextMutationMode::Replace => "replace",
            ContextMutationMode::Append => "append",
        }
    }
}

/// The mode a mutation request uses when it names none.
pub fn default_context_mutation_mode() -> (r: String)
    ensures
        r@ == "replace"@,
{
    own("replace")
}

/// A mode name, trimmed and ASCII case-insensitive.
pub open spec fn mode_spec(raw: Seq<char>) -> Result<ContextMutationMode, ErrView> {
    let k = norm_key(raw);
    if k == "replace"@ {
        Ok(ContextMutationMode::Replace)
    } else if k == "append"@ {
        Ok(ContextMutationMode::Append)
    } else {
        Err(bad_request("mode must be one of: replace, append"@))
    }
}

pub fn parse_context_mutation_mode(raw: &str) -> (r: Result<ContextMutationMode, ApiError>)
    ensures
        match (r, mode_spec(raw@)) {
            (Ok(a), Ok(b)) => a == b,
            (Err(e), Err(f)) => e@ == f,
            _ => false,
        },
        norm_key(raw@) == "replace"@ ==> r == Ok::<ContextMutationMode, ApiError>(
            ContextMutationMode::Replace,
        ),
        norm_key(raw@) == "append"@ ==> r == Ok::<ContextMutationMode, ApiError>(
            ContextMutationMode::Append,
        ),
        norm_key(raw@) != "replace"@ && norm_key(raw@) != "append"@ ==> r is Err,
{
    proof {
        reveal_strlit("replace");
        reveal_strlit("append");
        assert("replace"@.len() != "append"@.len());
    }
    let k = norm_key_of(raw);
    if chars_eq_str(k.as_slice(), "replace") {
        Ok(ContextMutationMode::Replace)
    } else if chars_eq_str(k.as_slice(), "append") {
        Ok(ContextMutationMode::Append)
    } else {
        Err(ApiError::bad_request("mode must be one of: replace, append"))
    }
}

/// An optional text, trimmed, with blank counting as absent.
pub fn normalize_optional_text(value: Option<&str>) -> (r: Option<String>)
    ensures
        match value {
            None => r is None,
            Some(s) => match r {
                None => trim_non_empty_spec(s@) is None,
                Some(t) => trim_non_empty_spec(s@) == Some(t@),
            },
        },
{
    trim_non_empty(value)
}

/// Who may change an agent-context file.
#[derive(Debug, Clone, Copy, PartialEq, Eq, Structural)]
pub enum AgentContextMutability {
    Immutable,
    HumanPrimary,
    AgentManaged,
}

/// Immutable files never change through the API; human-primary files only
/// by owners; agent-managed files by anyone who may write memory.
pub fn ensure_context_mutation_role(role: RolePreset, mutability: AgentContextMutability) -> (r:
    Result<(), ApiError>)
    ensures
        match mutability {
            AgentContextMutability::Immutable => r matches Err(e) && e@ == forbidden(
                "immutable agent-context files cannot be mutated via API"@,
            ),
            AgentContextMutability::HumanPrimary => (role == RolePreset::Owner <==> r is Ok) && (r matches Err(
                e,
            ) ==> e@ == forbidden("only owner role can mutate human-primary agent-context files"@)),
            AgentContextMutability::AgentManaged => (role != RolePreset::Viewer <==> r is Ok) && (r matches Err(
                e,
            ) ==> e@ == forbidden("viewer role cannot write memory"@)),
        },
{
    match mutability {
        AgentContextMutability::Immutable => Err(
            ApiError::forbidden("immutable agent-context files cannot be mutated via API"),
        ),
        AgentContextMutability::HumanPrimary => ensure_owner_role(
            role,
            "only owner role can mutate human-primary agent-context files",
        ),
        AgentContextMutability::AgentManaged => ensure_memory_write_role(role),
    }
}

/// The rules on mode and extension: session files are `.jsonl` and only
/// appended to; memory notes are `.md`; immutable and human-primary files
/// are only replaced.
pub open spec fn mode_check_spec(
    mode: ContextMutationMode,
    path: Seq<char>,
    mutability: AgentContextMutability,
) -> Option<ErrView> {
    if starts_with(path, "sessions/"@) && !ends_with(path, ".jsonl"@) {
        Some(bad_request("sessions/ context files must use .jsonl extension"@))
    } else if starts_with(path, "memory/"@) && !ends_with(path, ".md"@) {
        Some(bad_request("memory/ context files must use .md extension"@))
    } else if mutability != AgentContextMutability::AgentManaged && mode
        == ContextMutationMode::Append {
        Some(bad_request("append mode is not allowed for immutable or human-primary files"@))
    } else if starts_with(path, "sessions/"@) && mode != ContextMutationMode::Append {
        Some(bad_request("sessions/*.jsonl mutations must use append mode"@))
    } else {
        None
    }
}

pub fn validate_context_mutation_mode(
    mode: ContextMutationMode,
    relative_path: &str,
    mutability: AgentContextMutability,
) -> (r: Result<(), ApiError>)
    ensures
        match mode_check_spec(mode, relative_path@, mutability) {
            None => r is Ok,
            Some(e) => r matches Err(x) && x@ == e,
        },
        r is Ok <==> {
            &&& (starts_with(relative_path@, "sessions/"@) ==> ends_with(relative_path@, ".jsonl"@)
                && mode == ContextMutationMode::Append)
            &&& (starts_with(relative_path@, "memory/"@) ==> ends_with(relative_path@, ".md"@))
            &&& (mode == ContextMutationMode::Append ==> mutability
                == AgentContextMutability::AgentManaged)
        },
{
    let p = to_chars(relative_path);
    let p = p.as_slice();
    let in_sessions = starts_with_str(p, "sessions/");
    if in_sessions && !ends_with_str(p, ".jsonl") {
        return Err(ApiError::bad_request("sessions/ context files must use .jsonl extension"));
    }
    if starts_with_str(p, "memory/") && !ends_with_str(p, ".md") {
        return Err(ApiError::bad_request("memory/ context files must use .md extension"));
    }
    let appending = match mode {
        ContextMutationMode::Append => true,
        ContextMutationMode::Replace => false,
    };
    let agent_managed = match mutability {
        AgentContextMutability::AgentManaged => true,
        _ => false,
    };
    if !agent_managed && appending {
        return Err(
            ApiError::bad_request("append mode is not allowed for immutable or human-primary files"),
        );
    }
    if in_sessions && !appending {
        return Err(ApiError::bad_request("sessions/*.jsonl mutations must use append mode"));
    }
    Ok(())
}

pub open spec fn texts(v: Seq<String>) -> Seq<Seq<char>> {
    v.map_values(|s: String| s@)
}

/// The order in which context sources take precedence, strongest first.
pub open spec fn precedence_order_spec() -> Seq<Seq<char>> {
    seq![
        "runtime policy enforcement"@,
        "AGENTS.md + TOOLS.md"@,
        "IDENTITY.md + SOUL.md"@,
        "USER.md"@,
        "MEMORY.md"@,
        "memory/*.md + sessions/*.jsonl"@,
    ]
}

pub fn agent_context_precedence_order() -> (r: Vec<String>)
    ensures
        texts(r@) == precedence_order_spec(),
{
    let mut v: Vec<String> = Vec::new();
    v.push(own("runtime policy enforcement"));
    v.push(own("AGENTS.md + TOOLS.md"));
    v.push(own("IDENTITY.md + SOUL.md"));
    v.push(own("USER.md"));
    v.push(own("MEMORY.md"));
    v.push(own("memory/*.md + sessions/*.jsonl"));
    assert(texts(v@) =~= precedence_order_spec());
    v
}

/// The parts a relative path keeps, read left to right: empty and `.`
/// segments drop out; `..` and blank segments are refused, the first
/// offending segment deciding the error.
pub open spec fn path_parts(segs: Seq<Seq<char>>) -> Result<Seq<Seq<char>>, ErrView>
    decreases segs.len(),
{
    if segs.len() == 0 {
        Ok(Seq::empty())
    } else {
        match path_parts(segs.drop_last()) {
            Err(e) => Err(e),
            Ok(parts) => {
                let g = segs.last();
                if g.len() == 0 || g == "."@ {
                    Ok(parts)
                } else if g == ".."@ {
                    Err(bad_request("relative_path contains invalid path components"@))
                } else if trim(g).len() == 0 {
                    Err(bad_request("relative_path contains empty path component"@))
                } else {
                    Ok(parts.push(g))
                }
            },
        }
    }
}

/// A mutation path, as the platform's path rules read it: trimmed, not
/// empty, relative, without a leading `.` component, and with its parts
/// joined by `/`.
pub open spec fn normalized_path_spec(raw: Seq<char>) -> Result<Seq<char>, ErrView> {
    let t = trim(raw);
    if t.len() == 0 {
        Err(bad_request("relative_path must not be empty"@))
    } else if t[0] == '/' {
        Err(bad_request("relative_path must be a relative path"@))
    } else if t == "."@ || starts_with(t, "./"@) {
        Err(bad_request("relative_path contains invalid path components"@))
    } else {
        match path_parts(split_fields(t, '/')) {
            Err(e) => Err(e),
            Ok(parts) => if parts.len() == 0 {
                Err(bad_request("relative_path must not be empty"@))
            } else {
                Ok(join_with(parts, '/'))
            },
        }
    }
}

proof fn lemma_path_parts_clean(segs: Seq<Seq<char>>)
    requires
        forall|i: int| 0 <= i < segs.len() ==> !(#[trigger] segs[i]).contains('/'),
    ensures
        path_parts(segs) matches Ok(parts) ==> forall|i: int|
            0 <= i < parts.len() ==> {
                &&& !(#[trigger] parts[i]).contains('/')
                &&& parts[i].len() > 0
                &&& parts[i] != "."@
                &&& parts[i] != ".."@
                &&& trim(parts[i]).len() > 0
            },
    decreases segs.len(),
{
    if segs.len() > 0 {
        let init = segs.drop_last();
        assert forall|i: int| 0 <= i < init.len() implies !(#[trigger] init[i]).contains('/') by {
            assert(init[i] == segs[i]);
        }
        lemma_path_parts_clean(init);
        assert(!segs.last().contains('/')) by {
            assert(segs[segs.len() - 1] == segs.last());
        }
    }
}

proof fn lemma_split_fields_no_sep(s: Seq<char>, sep: char)
    ensures
        forall|i: int|
            0 <= i < split_fields(s, sep).len() ==> !(#[trigger] split_fields(s, sep)[i]).contains(
                sep,
            ),
    decreases s.len(),
{
    if s.len() > 0 {
        lemma_split_fields_no_sep(s.drop_last(), sep);
        let (done, cur) = crate::text::split_scan(s.drop_last(), sep);
        assert(split_fields(s.drop_last(), sep) == done.push(cur));
        assert forall|i: int| 0 <= i < done.len() implies !(#[trigger] done[i]).contains(sep) by {
            assert(done[i] == done.push(cur)[i]);
        }
        assert(!cur.contains(sep)) by {
            assert(cur == done.push(cur)[done.len() as int]);
        }
        if s.last() != sep {
            assert(!cur.push(s.last()).contains(sep)) by {
                if cur.push(s.last()).contains(sep) {
                    let k = choose|k: int| 0 <= k < cur.push(s.last()).len() && cur.push(s.last())[k] == sep;
                    if k < cur.len() {
                        assert(cur[k] == sep);
                    }
                }
            }
        } else {
            assert(!Seq::<char>::empty().contains(sep));
        }
    }
}

/// A normalized mutation path stays inside the agent's directory: it is not
/// absolute, and every segment of it is a plain, non-blank name (no `.`,
/// `..` or empty segment).
pub proof fn law_normalized_path_is_contained(raw: Seq<char>)
    ensures
        normalized_path_spec(raw) matches Ok(p) ==> {
            &&& p.len() > 0
            &&& p[0] != '/'
            &&& split_fields(p, '/').len() > 0
            &&& forall|i: int|
                0 <= i < split_fields(p, '/').len() ==> {
                    &&& (#[trigger] split_fields(p, '/')[i]).len() > 0
                    &&& split_fields(p, '/')[i] != "."@
                    &&& split_fields(p, '/')[i] != ".."@
                }
        },
{
    let t = trim(raw);
    if t.len() > 0 && t[0] != '/' {
        let segs = split_fields(t, '/');
        lemma_split_fields_no_sep(t, '/');
        lemma_path_parts_clean(segs);
        if let Ok(parts) = path_parts(segs) {
            if parts.len() > 0 {
                lemma_split_join(parts, '/');
                lemma_join_starts_with_first(parts, '/');
            }
        }
    }
}

/// Parts that are all plain names pass through unchanged.
proof fn lemma_path_parts_keep(parts: Seq<Seq<char>>)
    requires
        forall|i: int|
            0 <= i < parts.len() ==> {
                &&& (#[trigger] parts[i]).len() > 0
                &&& parts[i] != "."@
                &&& parts[i] != ".."@
                &&& trim(parts[i]).len() > 0
            },
    ensures
        path_parts(parts) == Ok::<Seq<Seq<char>>, ErrView>(parts),
    decreases parts.len(),
{
    if parts.len() > 0 {
        let init = parts.drop_last();
        assert forall|i: int| 0 <= i < init.len() implies {
            &&& (#[trigger] init[i]).len() > 0
            &&& init[i] != "."@
            &&& init[i] != ".."@
            &&& trim(init[i]).len() > 0
        } by {
            assert(init[i] == parts[i]);
        }
        lemma_path_parts_keep(init);
        let g = parts[parts.len() - 1];
        assert(g.len() > 0 && g != "."@ && g != ".."@ && trim(g).len() > 0);
        assert(parts.last() == g);
        assert(parts.drop_last() == init);
        assert(init.push(g) =~= parts);
    } else {
        assert(parts =~= Seq::<Seq<char>>::empty());
    }
}

/// A joined text begins with its first part.
proof fn lemma_join_prefix(parts: Seq<Seq<char>>, sep: char, k: int)
    requires
        parts.len() > 0,
        0 <= k < parts[0].len(),
    ensures
        k < join_with(parts, sep).len(),
        join_with(parts, sep)[k] == parts[0][k],
    decreases parts.len(),
{
    if parts.len() > 1 {
        lemma_join_prefix(parts.drop_last(), sep, k);
    }
}

/// A normalized path, once free of surrounding whitespace, is a fixed point
/// of normalization, and every segment of any normalized path is non-blank.
/// (A path such as `a /` normalizes to `a ` and then to `a`: such results,
/// ending in whitespace, are the ones left out of the first clause.)
pub proof fn law_normalized_path_is_stable(raw: Seq<char>)
    ensures
        normalized_path_spec(raw) matches Ok(p) ==> forall|i: int|
            0 <= i < split_fields(p, '/').len() ==> trim(#[trigger] split_fields(p, '/')[i]).len() > 0,
        normalized_path_spec(raw) matches Ok(p) ==> (trim(p) == p ==> normalized_path_spec(p)
            == Ok::<Seq<char>, ErrView>(p)),
{
    let t = trim(raw);
    if normalized_path_spec(raw) is Ok {
        let segs = split_fields(t, '/');
        lemma_split_fields_no_sep(t, '/');
        lemma_path_parts_clean(segs);
        let parts = path_parts(segs)->Ok_0;
        let p = join_with(parts, '/');
        lemma_split_join(parts, '/');
        assert(split_fields(p, '/') == parts);
        if trim(p) == p {
            reveal_strlit(".");
            reveal_strlit("./");
            lemma_join_prefix(parts, '/', 0);
            assert(p[0] != '/') by {
                assert(!parts[0].contains('/'));
                assert(parts[0][0] == parts[0][0]);
            }
            if p == "."@ {
                assert(split_fields(p, '/') =~= seq![seq!['.']]);
                assert(parts[0] =~= "."@);
            }
            if starts_with(p, "./"@) {
                assert(p.subrange(0, 2) == "./"@);
                assert(p[0] == p.subrange(0, 2)[0]);
                assert(p[1] == p.subrange(0, 2)[1]);
                assert(p[0] == '.');
                assert(p[1] == '/');
                if parts[0].len() == 1 {
                    assert(parts[0] =~= "."@);
                } else {
                    lemma_join_prefix(parts, '/', 1);
                    assert(!parts[0].contains('/'));
                    assert(parts[0][1] == '/');
                }
            }
            lemma_path_parts_keep(parts);
        }
    }
}

proof fn lemma_join_starts_with_first(parts: Seq<Seq<char>>, sep: char)
    requires
        parts.len() > 0,
        parts[0].len() > 0,
    ensures
        join_with(parts, sep).len() > 0,
        join_with(parts, sep)[0] == parts[0][0],
    decreases parts.len(),
{
    if parts.len() > 1 {
        lemma_join_starts_with_first(parts.drop_last(), sep);
    }
}

proof fn lemma_path_parts_err_persists(segs: Seq<Seq<char>>, k: int)
    requires
        0 <= k <= segs.len(),
        path_parts(segs.take(k)) is Err,
    ensures
        path_parts(segs) == path_parts(segs.take(k)),
    decreases segs.len() - k,
{
    if k < segs.len() {
        assert(segs.take(k + 1).drop_last() =~= segs.take(k));
        lemma_path_parts_err_persists(segs, k + 1);
    } else {
        assert(segs.take(k) =~= segs);
    }
}

/// Normalizes the path of a mutation request.
pub fn normalize_context_mutation_path(raw: &str) -> (r: Result<String, ApiError>)
    ensures
        match (r, normalized_path_spec(raw@)) {
            (Ok(a), Ok(b)) => a@ == b,
            (Err(e), Err(f)) => e@ == f,
            _ => false,
        },
{
    let c = to_chars(raw);
    let t = trim_chars(c.as_slice());
    if t.len() == 0 {
        return Err(ApiError::bad_request("relative_path must not be empty"));
    }
    if t[0] == '/' {
        return Err(ApiError::bad_request("relative_path must be a relative path"));
    }
    let ts = t.as_slice();
    if chars_eq_str(ts, ".") || starts_with_str(ts, "./") {
        return Err(ApiError::bad_request("relative_path contains invalid path components"));
    }
    let segs = split_on(ts, '/');
    let ghost sv = vecs_view(segs@);
    let mut parts: Vec<Vec<char>> = Vec::new();
    let mut i: usize = 0;
    assert(sv.take(0) =~= Seq::<Seq<char>>::empty());
    assert(vecs_view(parts@) =~= Seq::<Seq<char>>::empty());
    while i < segs.len()
        invariant
            i <= segs@.len(),
            sv == vecs_view(segs@),
            sv == split_fields(t@, '/'),
            t@ == trim(raw@),
            t@.len() > 0,
            t@[0] != '/',
            !(t@ == "."@ || starts_with(t@, "./"@)),
            path_parts(sv.take(i as int)) == Ok::<Seq<Seq<char>>, ErrView>(vecs_view(parts@)),
        decreases segs.len() - i,
    {
        assert(sv.take(i + 1).drop_last() =~= sv.take(i as int));
        assert(sv.take(i + 1).last() == segs@[i as int]@);
        let g = segs[i].as_slice();
        if g.len() == 0 || chars_eq_str(g, ".") {
        } else if chars_eq_str(g, "..") {
            proof {
                lemma_path_parts_err_persists(sv, i + 1);
            }
            return Err(ApiError::bad_request("relative_path contains invalid path components"));
        } else if trim_chars(g).len() == 0 {
            proof {
                lemma_path_parts_err_persists(sv, i + 1);
            }
            return Err(ApiError::bad_request("relative_path contains empty path component"));
        } else {
            let ghost before = parts@;
            parts.push(segs[i].clone());
            proof {
                assert(vecs_view(parts@) =~= vecs_view(before).push(segs@[i as int]@));
            }
        }
        i = i + 1;
    }
    assert(sv.take(sv.len() as int) =~= sv);
    if parts.len() == 0 {
        return Err(ApiError::bad_request("relative_path must not be empty"));
    }
    let joined = join_chars(&parts, '/');
    Ok(from_chars(joined.as_slice()))
}


/// Mutations are refused while the mutation endpoints are switched off.
pub fn ensure_context_mutation_enabled(enabled: bool) -> (r: Result<(), ApiError>)
    ensures
        enabled <==> r is Ok,
        r matches Err(e) ==> e@ == forbidden(
            "agent-context mutation endpoints are disabled by API_AGENT_CONTEXT_MUTATION_ENABLED"@,
        ),
{
    if enabled {
        Ok(())
    } else {
        Err(
            ApiError::forbidden(
                "agent-context mutation endpoints are disabled by API_AGENT_CONTEXT_MUTATION_ENABLED",
            ),
        )
    }
}

/// The content a mutation writes: a line appended to a session file ends
/// with a newline.
pub open spec fn mutation_payload_spec(
    mode: ContextMutationMode,
    path: Seq<char>,
    content: Seq<char>,
) -> Seq<char> {
    if mode == ContextMutationMode::Append && starts_with(path, "sessions/"@) && !ends_with(
        content,
        "\n"@,
    ) {
        content.push('\n')
    } else {
        content
    }
}

/// What a mutation writes is the content, with a newline added exactly
/// where a line appended to a session file would otherwise not end with
/// one; what a JSONL append writes is the line, ending with a newline.
pub proof fn law_appended_lines_end_with_newline(
    mode: ContextMutationMode,
    path: Seq<char>,
    content: Seq<char>,
)
    ensures
        mode == ContextMutationMode::Append && starts_with(path, "sessions/"@) ==> ends_with(
            mutation_payload_spec(mode, path, content),
            "\n"@,
        ),
        starts_with(mutation_payload_spec(mode, path, content), content),
        mutation_payload_spec(mode, path, content).len() <= content.len() + 1,
        !(mode == ContextMutationMode::Append && starts_with(path, "sessions/"@))
            ==> mutation_payload_spec(mode, path, content) == content,
        ends_with(content, "\n"@) ==> mutation_payload_spec(mode, path, content) == content,
        ends_with(jsonl_line_spec(content), "\n"@),
        starts_with(jsonl_line_spec(content), content),
        jsonl_line_spec(content).len() <= content.len() + 1,
{
    reveal_strlit("\n");
    let e = content.push('\n');
    assert(e.subrange(e.len() - 1, e.len() as int) =~= "\n"@);
    assert(e.subrange(0, content.len() as int) =~= content);
    assert(content.subrange(0, content.len() as int) =~= content);
}

pub fn context_mutation_payload(mode: ContextMutationMode, relative_path: &str, content: &str) -> (r:
    String)
    ensures
        r@ == mutation_payload_spec(mode, relative_path@, content@),
        mode == ContextMutationMode::Append && starts_with(relative_path@, "sessions/"@) ==> ends_with(
            r@,
            "\n"@,
        ),
        starts_with(r@, content@),
        !(mode == ContextMutationMode::Append && starts_with(relative_path@, "sessions/"@)) ==> r@
            == content@,
{
    proof {
        law_appended_lines_end_with_newline(mode, relative_path@, content@);
    }
    let p = to_chars(relative_path);
    let mut c = to_chars(content);
    let appending = match mode {
        ContextMutationMode::Append => true,
        ContextMutationMode::Replace => false,
    };
    if appending && starts_with_str(p.as_slice(), "sessions/") && !ends_with_str(c.as_slice(), "\n") {
        c.push('\n');
    }
    from_chars(c.as_slice())
}

/// `a + b`, saturating at `usize::MAX`.
pub open spec fn saturating_add_spec(a: int, b: int) -> int {
    if a + b > usize::MAX {
        usize::MAX as int
    } else {
        a + b
    }
}

fn saturating_add_usize(a: usize, b: usize) -> (r: usize)
    ensures
        r == saturating_add_spec(a as int, b as int),
{
    if a > usize::MAX - b {
        usize::MAX
    } else {
        a + b
    }
}

/// The size a file will have after the mutation, in bytes: the payload's
/// for a replacement, the current size plus the payload's for an append.
pub fn projected_context_len(mode: ContextMutationMode, current_len: usize, payload: &str) -> (r:
    usize)
    ensures
        r == match mode {
            ContextMutationMode::Replace => payload.spec_bytes().len() as usize as int,
            ContextMutationMode::Append => saturating_add_spec(
                current_len as int,
                payload.spec_bytes().len() as usize as int,
            ),
        },
{
    let n = payload.len();
    match mode {
        ContextMutationMode::Replace => n,
        ContextMutationMode::Append => saturating_add_usize(current_len, n),
    }
}

fn size_message(prefix: &str, max_file_bytes: usize) -> (r: String)
    ensures
        r@ == prefix@ + " exceeds max file size ("@ + dec_nat(max_file_bytes as nat) + " bytes)"@,
{
    let mut m: Vec<char> = Vec::new();
    append_str(&mut m, prefix);
    append_str(&mut m, " exceeds max file size (");
    let d = dec_u64(max_file_bytes as u64);
    append_chars(&mut m, d.as_slice());
    append_str(&mut m, " bytes)");
    from_chars(m.as_slice())
}

/// A mutation may not make a file larger than the configured maximum.
pub fn check_context_mutation_size(projected_len: usize, max_file_bytes: usize) -> (r: Result<
    (),
    ApiError,
>)
    ensures
        projected_len <= max_file_bytes <==> r is Ok,
        r matches Err(e) ==> e@ == bad_request(
            "mutation exceeds max file size ("@ + dec_nat(max_file_bytes as nat) + " bytes)"@,
        ),
{
    if projected_len > max_file_bytes {
        let m = size_message("mutation", max_file_bytes);
        proof {
            reveal_strlit("mutation");
            reveal_strlit(" exceeds max file size (");
            reveal_strlit("mutation exceeds max file size (");
            assert("mutation"@ + " exceeds max file size ("@ =~= "mutation exceeds max file size ("@);
        }
        return Err(ApiError::bad_request(m.as_str()));
    }
    Ok(())
}

/// The line a JSONL append writes: the line, ending with a newline.
pub open spec fn jsonl_line_spec(line: Seq<char>) -> Seq<char> {
    if ends_with(line, "\n"@) {
        line
    } else {
        line.push('\n')
    }
}

/// Plans appending a line to a JSONL context file of `current_len` bytes:
/// the line to write, or an error where the file would outgrow the maximum.
pub fn plan_context_jsonl_append(
    relative_path: &str,
    line: &str,
    current_len: usize,
    max_file_bytes: usize,
) -> (r: Result<String, ApiError>)
    ensures
        r is Ok <==> saturating_add_spec(
            current_len as int,
            vstd::utf8::encode_utf8(jsonl_line_spec(line@)).len() as usize as int,
        ) <= max_file_bytes,
        match r {
            Ok(p) => p@ == jsonl_line_spec(line@) && saturating_add_spec(
                current_len as int,
                vstd::utf8::encode_utf8(p@).len() as usize as int,
            ) <= max_file_bytes,
            Err(e) => e@ == bad_request(
                relative_path@ + " exceeds max file size ("@ + dec_nat(max_file_bytes as nat)
                    + " bytes)"@,
            ),
        },
{
    let mut c = to_chars(line);
    if !ends_with_str(c.as_slice(), "\n") {
        c.push('\n');
    }
    let payload = from_chars(c.as_slice());
    let n = payload.as_str().len();
    let projected = saturating_add_usize(current_len, n);
    if projected > max_file_bytes {
        let m = size_message(relative_path, max_file_bytes);
        return Err(ApiError::bad_request(m.as_str()));
    }
    Ok(payload)
}

/// A file the bootstrap workflow writes.
#[derive(Debug)]
pub struct BootstrapFileUpdate {
    pub relative_path: String,
    pub content: String,
}

pub open spec fn draft_update(path: Seq<char>, draft: Option<Seq<char>>) -> Seq<(Seq<char>, Seq<char>)> {
    match draft {
        Some(d) => match trim_non_empty_spec(d) {
            Some(t) => seq![(path, t)],
            None => Seq::empty(),
        },
        None => Seq::empty(),
    }
}

pub open spec fn opt_text(o: Option<&str>) -> Option<Seq<char>> {
    match o {
        Some(s) => Some(s@),
        None => None,
    }
}

/// The files a bootstrap completion writes: each supplied draft, trimmed
/// and not blank, in the order IDENTITY, SOUL, USER, HEARTBEAT.
pub open spec fn bootstrap_updates_spec(
    identity: Option<Seq<char>>,
    soul: Option<Seq<char>>,
    user: Option<Seq<char>>,
    heartbeat: Option<Seq<char>>,
) -> Seq<(Seq<char>, Seq<char>)> {
    draft_update("IDENTITY.md"@, identity) + draft_update("SOUL.md"@, soul) + draft_update(
        "USER.md"@,
        user,
    ) + draft_update("HEARTBEAT.md"@, heartbeat)
}

pub open spec fn updates_view(v: Seq<BootstrapFileUpdate>) -> Seq<(Seq<char>, Seq<char>)> {
    v.map_values(|u: BootstrapFileUpdate| (u.relative_path@, u.content@))
}

fn push_draft(out: &mut Vec<BootstrapFileUpdate>, path: &str, draft: Option<&str>)
    ensures
        updates_view(final(out)@) == updates_view(old(out)@) + draft_update(path@, opt_text(draft)),
{
    let ghost before = out@;
    match trim_non_empty(draft) {
        Some(t) => {
            out.push(BootstrapFileUpdate { relative_path: own(path), content: t });
            proof {
                assert(updates_view(out@) =~= updates_view(before) + draft_update(
                    path@,
                    opt_text(draft),
                ));
            }
        },
        None => {
            assert(updates_view(out@) =~= updates_view(before) + draft_update(
                path@,
                opt_text(draft),
            ));
        },
    }
}

/// Whether a draft was supplied and is not blank.
pub open spec fn draft_given(d: Option<Seq<char>>) -> bool {
    d matches Some(t) && trim(t).len() > 0
}

/// A bootstrap completion writes one file per supplied non-blank draft,
/// each holding its draft trimmed (never blank): `IDENTITY.md` first when
/// an identity is given, `HEARTBEAT.md` last when a heartbeat is given.
pub proof fn law_bootstrap_writes_each_given_draft(
    identity: Option<Seq<char>>,
    soul: Option<Seq<char>>,
    user: Option<Seq<char>>,
    heartbeat: Option<Seq<char>>,
)
    ensures
        bootstrap_updates_spec(identity, soul, user, heartbeat).len() == (if draft_given(identity) {
            1int
        } else {
            0int
        }) + (if draft_given(soul) {
            1int
        } else {
            0int
        }) + (if draft_given(user) {
            1int
        } else {
            0int
        }) + (if draft_given(heartbeat) {
            1int
        } else {
            0int
        }),
        forall|k: int|
            0 <= k < bootstrap_updates_spec(identity, soul, user, heartbeat).len() ==> (
            #[trigger] bootstrap_updates_spec(identity, soul, user, heartbeat)[k]).1.len() > 0,
        identity matches Some(d) ==> (trim(d).len() > 0 ==> bootstrap_updates_spec(
            identity,
            soul,
            user,
            heartbeat,
        )[0] == ("IDENTITY.md"@, trim(d))),
        heartbeat matches Some(d) ==> (trim(d).len() > 0 ==> bootstrap_updates_spec(
            identity,
            soul,
            user,
            heartbeat,
        ).last() == ("HEARTBEAT.md"@, trim(d))),
{
    let a = draft_update("IDENTITY.md"@, identity);
    let b = draft_update("SOUL.md"@, soul);
    let c = draft_update("USER.md"@, user);
    let d = draft_update("HEARTBEAT.md"@, heartbeat);
    let all = bootstrap_updates_spec(identity, soul, user, heartbeat);
    assert(all =~= a + b + c + d);
    assert forall|k: int| 0 <= k < all.len() implies (#[trigger] all[k]).1.len() > 0 by {
        if k < a.len() {
            assert(all[k] == a[k]);
        } else if k < a.len() + b.len() {
            assert(all[k] == b[k - a.len()]);
        } else if k < a.len() + b.len() + c.len() {
            assert(all[k] == c[k - a.len() - b.len()]);
        } else {
            assert(all[k] == d[k - a.len() - b.len() - c.len()]);
        }
    }
    if draft_given(identity) {
        assert(all[0] == a[0]);
    }
}

pub fn plan_bootstrap_updates(
    identity_markdown: Option<&str>,
    soul_markdown: Option<&str>,
    user_markdown: Option<&str>,
    heartbeat_markdown: Option<&str>,
) -> (r: Vec<BootstrapFileUpdate>)
    ensures
        updates_view(r@) == bootstrap_updates_spec(
            opt_text(identity_markdown),
            opt_text(soul_markdown),
            opt_text(user_markdown),
            opt_text(heartbeat_markdown),
        ),
        forall|k: int| 0 <= k < r@.len() ==> (#[trigger] r@[k]).content@.len() > 0,
        identity_markdown matches Some(d) ==> (trim(d@).len() > 0 ==> r@.len() > 0
            && r@[0].relative_path@ == "IDENTITY.md"@ && r@[0].content@ == trim(d@)),
        heartbeat_markdown matches Some(d) ==> (trim(d@).len() > 0 ==> r@.len() > 0
            && r@.last().relative_path@ == "HEARTBEAT.md"@ && r@.last().content@ == trim(d@)),
{
    let mut out: Vec<BootstrapFileUpdate> = Vec::new();
    assert(updates_view(out@) =~= Seq::<(Seq<char>, Seq<char>)>::empty());
    push_draft(&mut out, "IDENTITY.md", identity_markdown);
    push_draft(&mut out, "SOUL.md", soul_markdown);
    push_draft(&mut out, "USER.md", user_markdown);
    push_draft(&mut out, "HEARTBEAT.md", heartbeat_markdown);
    proof {
        assert(Seq::<(Seq<char>, Seq<char>)>::empty() + draft_update(
            "IDENTITY.md"@,
            opt_text(identity_markdown),
        ) =~= draft_update("IDENTITY.md"@, opt_text(identity_markdown)));
        law_bootstrap_writes_each_given_draft(
            opt_text(identity_markdown),
            opt_text(soul_markdown),
            opt_text(user_markdown),
            opt_text(heartbeat_markdown),
        );
        let v = updates_view(out@);
        assert forall|k: int| 0 <= k < out@.len() implies (#[trigger] out@[k]).content@.len() > 0 by {
            assert(v[k] == (out@[k].relative_path@, out@[k].content@));
        }
        if out@.len() > 0 {
            assert(v[0] == (out@[0].relative_path@, out@[0].content@));
            assert(v.last() == (out@.last().relative_path@, out@.last().content@));
        }
    }
    out
}

/// A bootstrap file may not be larger than the configured maximum.
pub fn check_bootstrap_write_size(relative_path: &str, content: &str, max_file_bytes: usize) -> (r:
    Result<(), ApiError>)
    ensures
        (content.spec_bytes().len() as usize) <= max_file_bytes <==> r is Ok,
        r matches Err(e) ==> e@ == bad_request(
            relative_path@ + " exceeds max file size ("@ + dec_nat(max_file_bytes as nat)
                + " bytes)"@,
        ),
{
    if content.len() > max_file_bytes {
        let m = size_message(relative_path, max_file_bytes);
        return Err(ApiError::bad_request(m.as_str()));
    }
    Ok(())
}

/// The bootstrap workflow can be switched off.
pub fn ensure_bootstrap_enabled(enabled: bool) -> (r: Result<(), ApiError>)
    ensures
        enabled <==> r is Ok,
        r matches Err(e) ==> e@ == forbidden(
            "agent bootstrap is disabled by API_AGENT_BOOTSTRAP_ENABLED"@,
        ),
{
    if enabled {
        Ok(())
    } else {
        Err(ApiError::forbidden("agent bootstrap is disabled by API_AGENT_BOOTSTRAP_ENABLED"))
    }
}

/// Completing bootstrap needs a `BOOTSTRAP.md`.
pub fn ensure_bootstrap_present(present: bool) -> (r: Result<(), ApiError>)
    ensures
        present <==> r is Ok,
        r matches Err(e) ==> e@ == conflict(
            "BOOTSTRAP.md is missing; add the file before completing bootstrap"@,
        ),
{
    if present {
        Ok(())
    } else {
        Err(ApiError::conflict("BOOTSTRAP.md is missing; add the file before completing bootstrap"))
    }
}

/// A completed bootstrap is only completed again when forced.
pub fn ensure_bootstrap_not_completed(already_completed: bool, force: bool) -> (r: Result<
    (),
    ApiError,
>)
    ensures
        (!already_completed || force) <==> r is Ok,
        r matches Err(e) ==> e@ == conflict(
            "bootstrap is already completed; pass force=true to record a new completion event"@,
        ),
{
    if already_completed && !force {
        Err(
            ApiError::conflict(
                "bootstrap is already completed; pass force=true to record a new completion event",
            ),
        )
    } else {
        Ok(())
    }
}

/// The bootstrap status: completed once a completion is recorded, pending
/// while only `BOOTSTRAP.md` exists, not configured otherwise.
pub fn bootstrap_status(completed: bool, bootstrap_present: bool) -> (r: &'static str)
    ensures
        r@ == if completed {
            "completed"@
        } else if bootstrap_present {
            "pending"@
        } else {
            "not_configured"@
        },
{
    if completed {
        "completed"
    } else if bootstrap_present {
        "pending"
    } else {
        "not_configured"
    }
}

/// Where the bootstrap status lines are kept, under the agent's directory.
pub open spec fn bootstrap_status_path() -> Seq<char> {
    "sessions/bootstrap.status.jsonl"@
}

/// The first session file whose path is the bootstrap status path, ASCII
/// case-insensitively.
pub open spec fn is_status_file_at(paths: Seq<String>, i: int) -> bool {
    &&& 0 <= i < paths.len()
    &&& ascii_lower(paths[i]@) == ascii_lower(bootstrap_status_path())
    &&& forall|k: int| 0 <= k < i ==> ascii_lower(paths[k]@) != ascii_lower(bootstrap_status_path())
}

pub fn find_bootstrap_status_file(relative_paths: &Vec<String>) -> (r: Option<usize>)
    ensures
        match r {
            Some(i) => is_status_file_at(relative_paths@, i as int),
            None => forall|k: int|
                0 <= k < relative_paths@.len() ==> ascii_lower(relative_paths@[k]@) != ascii_lower(
                    bootstrap_status_path(),
                ),
        },
{
    let target = to_chars("sessions/bootstrap.status.jsonl");
    let target = lower_chars(target.as_slice());
    let mut i: usize = 0;
    while i < relative_paths.len()
        invariant
            i <= relative_paths@.len(),
            target@ == ascii_lower(bootstrap_status_path()),
            forall|k: int|
                0 <= k < i ==> ascii_lower(relative_paths@[k]@) != ascii_lower(
                    bootstrap_status_path(),
                ),
        decreases relative_paths.len() - i,
    {
        let c = to_chars(relative_paths[i].as_str());
        let l = lower_chars(c.as_slice());
        if chars_eq(l.as_slice(), target.as_slice()) {
            return Some(i);
        }
        i = i + 1;
    }
    None
}


/// The lines of a status file worth reading: each line trimmed, blank lines
/// left out.
pub fn bootstrap_status_lines(content: &str) -> (r: Vec<String>)
    ensures
        texts(r@) == kept_fields(split_fields(content@, '\n')),
{
    crate::settings::kept_split(content, '\n')
}

/// A recorded bootstrap completion, as the status file holds it.
#[derive(Debug)]
pub struct BootstrapCompletion {
    /// The completion time, an RFC 3339 timestamp.
    pub completed_at: String,
    pub completed_by_user_id: u128,
    pub completion_note: Option<String>,
    pub updated_files: Vec<String>,
}

/// What a completion line says.
pub struct CompletionView {
    pub completed_at: Seq<char>,
    pub completed_by_user_id: u128,
    pub completion_note: Option<Seq<char>>,
    pub updated_files: Seq<Seq<char>>,
}

pub open spec fn completion_view(c: BootstrapCompletion) -> CompletionView {
    CompletionView {
        completed_at: c.completed_at@,
        completed_by_user_id: c.completed_by_user_id,
        completion_note: match c.completion_note {
            Some(n) => Some(n@),
            None => None,
        },
        updated_files: texts(c.updated_files@),
    }
}

/// The texts among JSON values, in order.
pub open spec fn str_items(items: Seq<JsonValue>) -> Seq<Seq<char>>
    decreases items.len(),
{
    if items.len() == 0 {
        Seq::empty()
    } else {
        let p = str_items(items.drop_last());
        match as_str(items.last()) {
            Some(s) => p.push(s),
            None => p,
        }
    }
}

/// The texts of an `updated_files` array; none where it is missing or not
/// an array.
pub open spec fn updated_files_spec(v: JsonValue) -> Seq<Seq<char>> {
    match get(v, "updated_files"@) {
        Some(JsonValue::Array(items)) => str_items(items@),
        _ => Seq::empty(),
    }
}

/// Reading the status lines so far: the latest completion, a failure, or a
/// timestamp the `time` crate refused (its error text is the crate's).
pub enum CompletionScan {
    Done(Option<CompletionView>),
    Failed(ErrView),
    BadTimestamp(Seq<char>),
}

/// One status line read after the ones before: lines whose status is not
/// `completed` change nothing; a completion must carry a valid timestamp
/// and user id, and then becomes the latest.
pub open spec fn scan_step(line: Result<JsonValue, String>, prev: Option<CompletionView>) -> CompletionScan {
    match line {
        Err(msg) => CompletionScan::Failed(
            internal(
                "failed decoding bootstrap status line in sessions/bootstrap.status.jsonl: "@ + msg@,
            ),
        ),
        Ok(v) => if str_field(v, "status"@) != Some("completed"@) {
            CompletionScan::Done(prev)
        } else {
            match str_field(v, "completed_at"@) {
                None => CompletionScan::Failed(
                    internal("bootstrap completion status is missing completed_at timestamp"@),
                ),
                Some(at) => if !rfc3339_parses(at) {
                    CompletionScan::BadTimestamp(at)
                } else {
                    match str_field(v, "completed_by_user_id"@) {
                        None => CompletionScan::Failed(
                            internal("bootstrap completion status is missing completed_by_user_id"@),
                        ),
                        Some(u) => match uuid_parse(u) {
                            None => CompletionScan::Failed(
                                internal("invalid bootstrap completion user id `"@ + u + "`"@),
                            ),
                            Some(id) => CompletionScan::Done(
                                Some(
                                    CompletionView {
                                        completed_at: at,
                                        completed_by_user_id: id,
                                        completion_note: str_field(v, "completion_note"@),
                                        updated_files: updated_files_spec(v),
                                    },
                                ),
                            ),
                        },
                    }
                },
            }
        },
    }
}

/// The status lines read in order, the first failure ending the reading.
pub open spec fn completion_scan(lines: Seq<Result<JsonValue, String>>) -> CompletionScan
    decreases lines.len(),
{
    if lines.len() == 0 {
        CompletionScan::Done(None)
    } else {
        match completion_scan(lines.drop_last()) {
            CompletionScan::Done(prev) => scan_step(lines.last(), prev),
            other => other,
        }
    }
}

/// The status line recording a bootstrap completion: schema `v1`, status
/// `completed`, the timestamp, the user's id, the note (or null) and the
/// updated files, and no other field.
pub open spec fn is_completion_record(
    r: JsonValue,
    at: Seq<char>,
    user: u128,
    note: Option<Seq<char>>,
    files: Seq<Seq<char>>,
) -> bool {
    &&& r is Object
    &&& keys_unique(r->Object_0@)
    &&& str_field(r, "schema_version"@) == Some("v1"@)
    &&& str_field(r, "status"@) == Some("completed"@)
    &&& str_field(r, "completed_at"@) == Some(at)
    &&& str_field(r, "completed_by_user_id"@) == Some(uuid_text(user))
    &&& match note {
        Some(n) => str_field(r, "completion_note"@) == Some(n),
        None => get(r, "completion_note"@) == Some(JsonValue::Null),
    }
    &&& (get(r, "updated_files"@) matches Some(JsonValue::Array(items)) && items@.len() == files.len()
        && forall|i: int| 0 <= i < files.len() ==> as_str(#[trigger] items@[i]) == Some(files[i]))
    &&& forall|k: Seq<char>|
        k != "schema_version"@ && k != "status"@ && k != "completed_at"@ && k
            != "completed_by_user_id"@ && k != "completion_note"@ && k != "updated_files"@
            ==> #[trigger] get(r, k) is None
}

/// Builds the status line recording a bootstrap completion.
pub fn bootstrap_completion_record(
    completed_at: &str,
    completed_by_user_id: u128,
    completion_note: Option<&str>,
    updated_files: &Vec<String>,
) -> (r: JsonValue)
    ensures
        is_completion_record(
            r,
            completed_at@,
            completed_by_user_id,
            opt_text(completion_note),
            texts(updated_files@),
        ),
{
    proof {
        reveal_strlit("schema_version");
        reveal_strlit("status");
        reveal_strlit("completed_at");
        reveal_strlit("completed_by_user_id");
        reveal_strlit("completion_note");
        reveal_strlit("updated_files");
        assert("schema_version"@.len() == 14);
        assert("status"@.len() == 6);
        assert("completed_at"@.len() == 12);
        assert("completed_by_user_id"@.len() == 20);
        assert("completion_note"@.len() == 15);
        assert("updated_files"@.len() == 13);
    }
    let mut items: Vec<JsonValue> = Vec::new();
    let mut i: usize = 0;
    while i < updated_files.len()
        invariant
            i <= updated_files@.len(),
            items@.len() == i,
            forall|k: int| 0 <= k < i ==> as_str(#[trigger] items@[k]) == Some(updated_files@[k]@),
        decreases updated_files.len() - i,
    {
        items.push(json_str(updated_files[i].as_str()));
        i = i + 1;
    }
    let note = match completion_note {
        Some(n) => json_str(n),
        None => JsonValue::Null,
    };
    let mut fs: Vec<JsonField> = Vec::new();
    assert(keys_unique(fs@));
    insert_field(&mut fs, "schema_version", json_str("v1"));
    insert_field(&mut fs, "status", json_str("completed"));
    insert_field(&mut fs, "completed_at", json_str(completed_at));
    let u = uuid_to_text(completed_by_user_id);
    insert_field(&mut fs, "completed_by_user_id", json_str(u.as_str()));
    insert_field(&mut fs, "completion_note", note);
    let ghost iv = items@;
    insert_field(&mut fs, "updated_files", JsonValue::Array(items));
    proof {
        assert forall|k: int| 0 <= k < texts(updated_files@).len() implies as_str(#[trigger] iv[k])
            == Some(texts(updated_files@)[k]) by {
            assert(texts(updated_files@)[k] == updated_files@[k]@);
        }
    }
    JsonValue::Object(fs)
}

/// The completion a status line records, as a reader sees it.
pub open spec fn recorded_completion(
    at: Seq<char>,
    user: u128,
    note: Option<Seq<char>>,
    files: Seq<Seq<char>>,
) -> CompletionView {
    CompletionView { completed_at: at, completed_by_user_id: user, completion_note: note, updated_files: files }
}

/// Writes the status line of a bootstrap completion made at `now_nanos`
/// (nanoseconds after the Unix epoch): the RFC 3339 text of that instant
/// and the line recording it. Read back after any status lines that read
/// cleanly, the line gives exactly this completion. Fails, with the `time`
/// crate's words, only where the instant cannot be written in RFC 3339.
pub fn plan_bootstrap_completion_line(
    now_nanos: i128,
    completed_by_user_id: u128,
    completion_note: Option<&str>,
    updated_files: &Vec<String>,
) -> (r: Result<(String, JsonValue), ApiError>)
    ensures
        r is Ok <==> rfc3339_of_nanos(now_nanos as int) is Some,
        match r {
            Ok((at, record)) => {
                &&& rfc3339_of_nanos(now_nanos as int) == Some(at@)
                &&& is_completion_record(
                    record,
                    at@,
                    completed_by_user_id,
                    opt_text(completion_note),
                    texts(updated_files@),
                )
                &&& forall|lines: Seq<Result<JsonValue, String>>|
                    #[trigger] completion_scan(lines) is Done ==> completion_scan(lines.push(Ok(record)))
                        == CompletionScan::Done(
                        Some(
                            recorded_completion(
                                at@,
                                completed_by_user_id,
                                opt_text(completion_note),
                                texts(updated_files@),
                            ),
                        ),
                    )
            },
            Err(e) => e.status == STATUS_INTERNAL && e.code@ == "INTERNAL"@ && starts_with(
                e.message@,
                "failed formatting bootstrap completion timestamp: "@,
            ),
        },
{
    match format_rfc3339_nanos(now_nanos) {
        Err(msg) => {
            let mut m: Vec<char> = Vec::new();
            append_str(&mut m, "failed formatting bootstrap completion timestamp: ");
            let ghost pre = m@;
            append_str(&mut m, msg.as_str());
            let text = from_chars(m.as_slice());
            proof {
                reveal_strlit("failed formatting bootstrap completion timestamp: ");
                assert(text@.subrange(0, pre.len() as int) =~= pre);
            }
            Err(ApiError::internal(text.as_str()))
        },
        Ok(at) => {
            let u = uuid_to_text(completed_by_user_id);
            // Reading the written id back once is what lets the line's
            // read-back be stated for every user.
            let back = parse_uuid(u.as_str());
            let record = bootstrap_completion_record(at.as_str(), completed_by_user_id, completion_note, updated_files);
            proof {
                assert(back == Some(completed_by_user_id));
                assert forall|lines: Seq<Result<JsonValue, String>>|
                    #[trigger] completion_scan(lines) is Done implies completion_scan(lines.push(Ok(record)))
                        == CompletionScan::Done(
                        Some(
                            recorded_completion(
                                at@,
                                completed_by_user_id,
                                opt_text(completion_note),
                                texts(updated_files@),
                            ),
                        ),
                    ) by {
                    law_written_completion_is_read_back(
                        lines,
                        record,
                        at@,
                        completed_by_user_id,
                        opt_text(completion_note),
                        texts(updated_files@),
                    );
                }
            }
            Ok((at, record))
        },
    }
}

proof fn lemma_str_items_all(items: Seq<JsonValue>, files: Seq<Seq<char>>)
    requires
        items.len() == files.len(),
        forall|i: int| 0 <= i < files.len() ==> as_str(#[trigger] items[i]) == Some(files[i]),
    ensures
        str_items(items) == files,
    decreases items.len(),
{
    if items.len() > 0 {
        let fi = files.drop_last();
        let ii = items.drop_last();
        assert forall|i: int| 0 <= i < fi.len() implies as_str(#[trigger] ii[i]) == Some(fi[i]) by {
            assert(ii[i] == items[i] && fi[i] == files[i]);
        }
        lemma_str_items_all(ii, fi);
        assert(as_str(items[items.len() - 1]) == Some(files[files.len() - 1]));
        assert(fi.push(files.last()) =~= files);
    } else {
        assert(files =~= Seq::<Seq<char>>::empty());
    }
}

/// A completion written as a status line is read back as it was written:
/// after any earlier lines that read cleanly, the line built by
/// `bootstrap_completion_record` makes the latest completion exactly the
/// recorded time, user, note and files. This holds for a timestamp the
/// `time` crate reads as RFC 3339 and a user id whose text the `uuid` crate
/// reads back; `plan_bootstrap_completion_line` writes exactly such lines
/// and states the read-back for each of them.
pub proof fn law_written_completion_is_read_back(
    lines: Seq<Result<JsonValue, String>>,
    record: JsonValue,
    at: Seq<char>,
    user: u128,
    note: Option<Seq<char>>,
    files: Seq<Seq<char>>,
)
    requires
        completion_scan(lines) is Done,
        is_completion_record(record, at, user, note, files),
        rfc3339_parses(at),
        uuid_parse(uuid_text(user)) == Some(user),
    ensures
        completion_scan(lines.push(Ok(record))) == CompletionScan::Done(
            Some(
                CompletionView {
                    completed_at: at,
                    completed_by_user_id: user,
                    completion_note: note,
                    updated_files: files,
                },
            ),
        ),
{
    let all = lines.push(Ok::<JsonValue, String>(record));
    assert(all.drop_last() =~= lines);
    assert(all.last() == Ok::<JsonValue, String>(record));
    if let Some(JsonValue::Array(items)) = get(record, "updated_files"@) {
        lemma_str_items_all(items@, files);
    }
    match note {
        Some(n) => {},
        None => {
            assert(str_field(record, "completion_note"@) is None);
        },
    }
}

fn str_items_of(items: &Vec<JsonValue>) -> (r: Vec<String>)
    ensures
        texts(r@) == str_items(items@),
{
    let mut out: Vec<String> = Vec::new();
    let mut i: usize = 0;
    assert(items@.take(0) =~= Seq::<JsonValue>::empty());
    assert(texts(out@) =~= Seq::<Seq<char>>::empty());
    while i < items.len()
        invariant
            i <= items@.len(),
            texts(out@) == str_items(items@.take(i as int)),
        decreases items.len() - i,
    {
        assert(items@.take(i + 1).drop_last() =~= items@.take(i as int));
        assert(items@.take(i + 1).last() == items@[i as int]);
        match &items[i] {
            JsonValue::Str(s) => {
                let ghost before = out@;
                out.push(s.clone());
                proof {
                    assert(texts(out@) =~= texts(before).push(s@));
                }
            },
            _ => {},
        }
        i = i + 1;
    }
    assert(items@.take(items@.len() as int) =~= items@);
    out
}

proof fn lemma_scan_failure_persists(lines: Seq<Result<JsonValue, String>>, k: int)
    requires
        0 <= k <= lines.len(),
        !(completion_scan(lines.take(k)) is Done),
    ensures
        completion_scan(lines) == completion_scan(lines.take(k)),
    decreases lines.len() - k,
{
    if k < lines.len() {
        assert(lines.take(k + 1).drop_last() =~= lines.take(k));
        lemma_scan_failure_persists(lines, k + 1);
    } else {
        assert(lines.take(k) =~= lines);
    }
}

pub open spec fn opt_completion_view(o: Option<BootstrapCompletion>) -> Option<CompletionView> {
    match o {
        Some(c) => Some(completion_view(c)),
        None => None,
    }
}

/// Reads the bootstrap status lines (each already decoded as JSON, or the
/// decoder's error) and gives the latest recorded completion.
pub fn find_latest_bootstrap_completion(lines: &Vec<Result<JsonValue, String>>) -> (r: Result<
    Option<BootstrapCompletion>,
    ApiError,
>)
    ensures
        match completion_scan(lines@) {
            CompletionScan::Done(v) => r matches Ok(c) && opt_completion_view(c) == v,
            CompletionScan::Failed(f) => r matches Err(e) && e@ == f,
            CompletionScan::BadTimestamp(at) => r matches Err(e) && e.status == STATUS_INTERNAL
                && e.code@ == "INTERNAL"@ && starts_with(
                e.message@,
                "invalid bootstrap completion timestamp `"@ + at + "`: "@,
            ),
        },
{
    let mut latest: Option<BootstrapCompletion> = None;
    let mut i: usize = 0;
    assert(lines@.take(0) =~= Seq::<Result<JsonValue, String>>::empty());
    while i < lines.len()
        invariant
            i <= lines@.len(),
            completion_scan(lines@.take(i as int)) == CompletionScan::Done(
                opt_completion_view(latest),
            ),
        decreases lines.len() - i,
    {
        assert(lines@.take(i + 1).drop_last() =~= lines@.take(i as int));
        assert(lines@.take(i + 1).last() == lines@[i as int]);
        let v = match &lines[i] {
            Err(msg) => {
                let mut m: Vec<char> = Vec::new();
                append_str(
                    &mut m,
                    "failed decoding bootstrap status line in sessions/bootstrap.status.jsonl: ",
                );
                append_str(&mut m, msg.as_str());
                proof {
                    lemma_scan_failure_persists(lines@, i + 1);
                }
                return Err(ApiError::internal(from_chars(m.as_slice()).as_str()));
            },
            Ok(v) => v,
        };
        let status = str_field_of(v, "status");
        let completed = match &status {
            Some(st) => {
                let c = to_chars(st.as_str());
                chars_eq_str(c.as_slice(), "completed")
            },
            None => false,
        };
        proof {
            reveal_strlit("completed");
        }
        if completed {
            let at = match str_field_of(v, "completed_at") {
                Some(a) => a,
                None => {
                    proof {
                        lemma_scan_failure_persists(lines@, i + 1);
                    }
                    return Err(
                        ApiError::internal(
                            "bootstrap completion status is missing completed_at timestamp",
                        ),
                    );
                },
            };
            match check_rfc3339(at.as_str()) {
                Ok(()) => {},
                Err(detail) => {
                    let mut m: Vec<char> = Vec::new();
                    append_str(&mut m, "invalid bootstrap completion timestamp `");
                    append_str(&mut m, at.as_str());
                    append_str(&mut m, "`: ");
                    let ghost prefix = m@;
                    append_str(&mut m, detail.as_str());
                    proof {
                        lemma_scan_failure_persists(lines@, i + 1);
                        assert(m@.subrange(0, prefix.len() as int) =~= prefix);
                    }
                    return Err(ApiError::internal(from_chars(m.as_slice()).as_str()));
                },
            }
            let user_raw = match str_field_of(v, "completed_by_user_id") {
                Some(u) => u,
                None => {
                    proof {
                        lemma_scan_failure_persists(lines@, i + 1);
                    }
                    return Err(
                        ApiError::internal(
                            "bootstrap completion status is missing completed_by_user_id",
                        ),
                    );
                },
            };
            let user = match parse_uuid(user_raw.as_str()) {
                Some(u) => u,
                None => {
                    let mut m: Vec<char> = Vec::new();
                    append_str(&mut m, "invalid bootstrap completion user id `");
                    append_str(&mut m, user_raw.as_str());
                    append_str(&mut m, "`");
                    proof {
                        lemma_scan_failure_persists(lines@, i + 1);
                    }
                    return Err(ApiError::internal(from_chars(m.as_slice()).as_str()));
                },
            };
            let note = str_field_of(v, "completion_note");
            let files = match get_field(v, "updated_files") {
                Some(JsonValue::Array(items)) => str_items_of(items),
                _ => {
                    let e: Vec<String> = Vec::new();
                    assert(texts(e@) =~= Seq::<Seq<char>>::empty());
                    e
                },
            };
            latest = Some(
                BootstrapCompletion {
                    completed_at: at,
                    completed_by_user_id: user,
                    completion_note: note,
                    updated_files: files,
                },
            );
        }
        i = i + 1;
    }
    assert(lines@.take(lines@.len() as int) =~= lines@);
    Ok(latest)
}

/// Why an agent's context could not be loaded.
#[derive(Debug)]
pub enum ContextLoadFailure {
    /// No context directory exists; these paths were searched.
    NotFound { searched_paths: Vec<String> },
    /// The loader's settings are inconsistent.
    InvalidConfig { message: String },
    /// Reading a file failed.
    Io { path: String, source: String },
}

/// Texts joined with `", "` between them.
pub open spec fn join_comma(parts: Seq<Seq<char>>) -> Seq<char>
    decreases parts.len(),
{
    if parts.len() == 0 {
        Seq::empty()
    } else if parts.len() == 1 {
        parts[0]
    } else {
        join_comma(parts.drop_last()) + ", "@ + parts.last()
    }
}

/// The API error for a context that could not be loaded: 404 listing the
/// searched paths, or an internal error.
pub fn map_agent_context_load_error(err: &ContextLoadFailure) -> (r: ApiError)
    ensures
        r@ == match *err {
            ContextLoadFailure::NotFound { searched_paths } => crate::error::err(
                crate::error::STATUS_NOT_FOUND,
                "NOT_FOUND"@,
                "agent context not found; searched: "@ + join_comma(texts(searched_paths@)),
            ),
            ContextLoadFailure::InvalidConfig { message } => internal(
                "agent context loader is misconfigured: "@ + message@,
            ),
            ContextLoadFailure::Io { path, source } => internal(
                "failed reading agent context at "@ + path@ + ": "@ + source@,
            ),
        },
{
    match err {
        ContextLoadFailure::NotFound { searched_paths } => {
            let mut m: Vec<char> = Vec::new();
            append_str(&mut m, "agent context not found; searched: ");
            let ghost prefix = m@;
            let ghost pv = texts(searched_paths@);
            let mut i: usize = 0;
            assert(pv.take(0) =~= Seq::<Seq<char>>::empty());
            assert(m@ =~= prefix + join_comma(pv.take(0)));
            while i < searched_paths.len()
                invariant
                    i <= searched_paths@.len(),
                    pv == texts(searched_paths@),
                    m@ == prefix + join_comma(pv.take(i as int)),
                decreases searched_paths.len() - i,
            {
                assert(pv.take(i + 1).drop_last() =~= pv.take(i as int));
                assert(pv.take(i + 1).last() == searched_paths@[i as int]@);
                if i > 0 {
                    append_str(&mut m, ", ");
                } else {
                    assert(pv.take(1)[0] == searched_paths@[0]@);
                }
                append_str(&mut m, searched_paths[i].as_str());
                proof {
                    if i > 0 {
                        assert(m@ =~= prefix + (join_comma(pv.take(i as int)) + ", "@ + searched_paths@[i as int]@));
                    } else {
                        assert(m@ =~= prefix + searched_paths@[0]@);
                    }
                }
                i = i + 1;
            }
            assert(pv.take(pv.len() as int) =~= pv);
            ApiError::new(crate::error::STATUS_NOT_FOUND, "NOT_FOUND", from_chars(m.as_slice()).as_str())
        },
        ContextLoadFailure::InvalidConfig { message } => {
            let mut m: Vec<char> = Vec::new();
            append_str(&mut m, "agent context loader is misconfigured: ");
            append_str(&mut m, message.as_str());
            ApiError::internal(from_chars(m.as_slice()).as_str())
        },
        ContextLoadFailure::Io { path, source } => {
            let mut m: Vec<char> = Vec::new();
            append_str(&mut m, "failed reading agent context at ");
            append_str(&mut m, path.as_str());
            append_str(&mut m, ": ");
            append_str(&mut m, source.as_str());
            ApiError::internal(from_chars(m.as_slice()).as_str())
        },
    }
}
} // verus!
