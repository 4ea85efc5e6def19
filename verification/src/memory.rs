//! Memory records: what creating a record or a handoff packet requires,
//! listing and retrieval queries, the candidates retrieval keeps, query
//! tokens, and handoff packets read back from records.
use vstd::prelude::*;
use crate::text::{
    trim, ascii_lower, starts_with, contains_sub, to_chars, trim_chars, from_chars, lower_chars,
    chars_eq, starts_with_chars, contains_chars, trim_non_empty, trim_non_empty_spec, append_str,
    append_chars, vecs_view, text_lt, text_lt_exec, lemma_text_lt_total, lemma_text_lt_transitive,
    lemma_text_lt_irreflexive, lemma_text_lt_asymmetric, join_with, lower_char,
};
use crate::error::{ApiError, ErrView, bad_request, internal, own};
use crate::capability::{
    memory_kind_of, normalize_memory_kind, scope_allowed, is_scope_allowed_for_capability,
};
use crate::limits::{clamp_spec, or_default_i64, limit_or_default};
use crate::ids::{uuid_text, uuid_to_text, uuid_parse, parse_uuid};
use crate::json::{JsonValue, get, str_field, str_field_of, find_key, key_pos, lemma_key_pos_unique};

verus! {

pub open spec fn opt_text(o: Option<&str>) -> Option<Seq<char>> {
    match o {
        Some(s) => Some(s@),
        None => None,
    }
}

pub open spec fn opt_string(o: Option<String>) -> Option<Seq<char>> {
    match o {
        Some(s) => Some(s@),
        None => None,
    }
}

/// The source a record names, trimmed; `api` when none is given.
pub open spec fn source_spec(source: Option<Seq<char>>) -> Seq<char> {
    match source {
        Some(s) => match trim_non_empty_spec(s) {
            Some(t) => t,
            None => "api"@,
        },
        None => "api"@,
    }
}

fn source_or_api(source: Option<&str>) -> (r: String)
    ensures
        r@ == source_spec(opt_text(source)),
{
    match trim_non_empty(source) {
        Some(s) => s,
        None => own("api"),
    }
}

/// A step can only be checked against a run.
pub open spec fn step_check_spec(run_id: Option<u128>, step_id: Option<u128>) -> Option<ErrView> {
    if step_id is Some && run_id is None {
        Some(bad_request("step_id requires run_id for tenant validation"@))
    } else {
        None
    }
}

/// What a valid memory record request stores.
#[derive(Debug)]
pub struct MemoryRecordPlan {
    pub memory_kind: String,
    pub scope: String,
    pub source: String,
}

/// A memory record request: a known kind, a non-blank `memory:` scope, and
/// a step only together with its run.
pub open spec fn memory_record_spec(
    kind: Seq<char>,
    scope: Seq<char>,
    source: Option<Seq<char>>,
    run_id: Option<u128>,
    step_id: Option<u128>,
) -> Result<(Seq<char>, Seq<char>, Seq<char>), ErrView> {
    match memory_kind_of(kind) {
        None => Err(bad_request("memory_kind must be one of: session, semantic, procedural, handoff"@)),
        Some(k) => {
            let s = trim(scope);
            if s.len() == 0 {
                Err(bad_request("scope must not be empty"@))
            } else if !scope_allowed("memory.write"@, s) {
                Err(bad_request("scope must be memory-scoped (prefix `memory:`)"@))
            } else {
                match step_check_spec(run_id, step_id) {
                    Some(e) => Err(e),
                    None => Ok((k, s, source_spec(source))),
                }
            }
        },
    }
}

pub fn plan_memory_record(
    memory_kind: &str,
    scope: &str,
    source: Option<&str>,
    run_id: Option<u128>,
    step_id: Option<u128>,
) -> (r: Result<MemoryRecordPlan, ApiError>)
    ensures
        match (r, memory_record_spec(memory_kind@, scope@, opt_text(source), run_id, step_id)) {
            (Ok(p), Ok(v)) => p.memory_kind@ == v.0 && p.scope@ == v.1 && p.source@ == v.2,
            (Err(e), Err(f)) => e@ == f,
            _ => false,
        },
        r matches Ok(p) ==> p.scope@ == trim(scope@) && starts_with(p.scope@, "memory:"@),
        r matches Ok(p) ==> (source is None ==> p.source@ == "api"@),
        r matches Ok(p) ==> (source matches Some(x) ==> (trim(x@).len() > 0 ==> p.source@ == trim(
            x@,
        ))),
        step_id is Some && run_id is None ==> r is Err,
        memory_kind_of(memory_kind@) is None ==> r is Err,
{
    proof {
        crate::capability::law_scope_prefixes("memory.write"@, trim(scope@));
    }
    let kind = match normalize_memory_kind(memory_kind) {
        Some(k) => k,
        None => {
            return Err(
                ApiError::bad_request(
                    "memory_kind must be one of: session, semantic, procedural, handoff",
                ),
            )
        },
    };
    let c = to_chars(scope);
    let t = trim_chars(c.as_slice());
    if t.len() == 0 {
        return Err(ApiError::bad_request("scope must not be empty"));
    }
    let scope_text = from_chars(t.as_slice());
    if !is_scope_allowed_for_capability("memory.write", scope_text.as_str()) {
        return Err(ApiError::bad_request("scope must be memory-scoped (prefix `memory:`)"));
    }
    let source_text = source_or_api(source);
    if step_id.is_some() && run_id.is_none() {
        return Err(ApiError::bad_request("step_id requires run_id for tenant validation"));
    }
    Ok(MemoryRecordPlan { memory_kind: own(kind), scope: scope_text, source: source_text })
}

/// What a valid handoff packet request stores.
#[derive(Debug)]
pub struct HandoffPlan {
    pub title: String,
    pub source: String,
    pub from_agent_id: u128,
}

/// A handoff packet request: a non-blank title, and a step only together
/// with its run; the sender defaults to the receiver.
pub fn plan_handoff_packet(
    title: &str,
    source: Option<&str>,
    to_agent_id: u128,
    from_agent_id: Option<u128>,
    run_id: Option<u128>,
    step_id: Option<u128>,
) -> (r: Result<HandoffPlan, ApiError>)
    ensures
        match r {
            Ok(p) => {
                &&& trim(title@).len() > 0
                &&& step_check_spec(run_id, step_id) is None
                &&& p.title@ == trim(title@)
                &&& p.source@ == source_spec(opt_text(source))
                &&& p.from_agent_id == match from_agent_id {
                    Some(f) => f,
                    None => to_agent_id,
                }
            },
            Err(e) => (trim(title@).len() == 0 && e@ == bad_request("title must not be empty"@)) || (
            trim(title@).len() > 0 && step_check_spec(run_id, step_id) == Some(e@)),
        },
{
    let c = to_chars(title);
    let t = trim_chars(c.as_slice());
    if t.len() == 0 {
        return Err(ApiError::bad_request("title must not be empty"));
    }
    let source_text = source_or_api(source);
    if step_id.is_some() && run_id.is_none() {
        return Err(ApiError::bad_request("step_id requires run_id for tenant validation"));
    }
    let from = match from_agent_id {
        Some(f) => f,
        None => to_agent_id,
    };
    Ok(HandoffPlan { title: from_chars(t.as_slice()), source: source_text, from_agent_id: from })
}

/// The scope of a handoff packet: `memory:handoff/<to agent>/<packet>`.
pub open spec fn handoff_scope_spec(to_agent_id: u128, packet_id: u128) -> Seq<char> {
    "memory:handoff/"@ + uuid_text(to_agent_id) + "/"@ + uuid_text(packet_id)
}

pub fn handoff_scope(to_agent_id: u128, packet_id: u128) -> (r: String)
    ensures
        r@ == handoff_scope_spec(to_agent_id, packet_id),
{
    let mut m: Vec<char> = Vec::new();
    append_str(&mut m, "memory:handoff/");
    let a = uuid_to_text(to_agent_id);
    append_str(&mut m, a.as_str());
    append_str(&mut m, "/");
    let p = uuid_to_text(packet_id);
    append_str(&mut m, p.as_str());
    from_chars(m.as_slice())
}

/// A memory kind filter: absent, or a known kind.
pub open spec fn kind_filter_spec(raw: Option<Seq<char>>) -> Result<Option<Seq<char>>, ErrView> {
    match raw {
        None => Ok(None),
        Some(k) => match memory_kind_of(k) {
            Some(n) => Ok(Some(n)),
            None => Err(
                bad_request("memory_kind must be one of: session, semantic, procedural, handoff"@),
            ),
        },
    }
}

/// A scope prefix filter: absent or blank, or a `memory:` scope.
pub open spec fn scope_prefix_spec(raw: Option<Seq<char>>) -> Result<Option<Seq<char>>, ErrView> {
    match raw {
        None => Ok(None),
        Some(p) => match trim_non_empty_spec(p) {
            None => Ok(None),
            Some(t) => if scope_allowed("memory.read"@, t) {
                Ok(Some(t))
            } else {
                Err(bad_request("scope_prefix must use memory scope prefix (`memory:`)"@))
            },
        },
    }
}

/// The filters of a memory listing or retrieval.
#[derive(Debug)]
pub struct MemoryFilters {
    pub limit: i64,
    pub memory_kind: Option<String>,
    pub scope_prefix: Option<String>,
}

fn kind_and_scope(
    memory_kind: Option<&str>,
    scope_prefix: Option<&str>,
) -> (r: Result<(Option<String>, Option<String>), ApiError>)
    ensures
        match (kind_filter_spec(opt_text(memory_kind)), r) {
            (Err(f), Err(e)) => e@ == f,
            (Ok(k), _) => match (scope_prefix_spec(opt_text(scope_prefix)), r) {
                (Err(f), Err(e)) => e@ == f,
                (Ok(s), Ok(v)) => opt_string(v.0) == k && opt_string(v.1) == s,
                _ => false,
            },
            _ => false,
        },
{
    let kind = match memory_kind {
        None => None,
        Some(k) => match normalize_memory_kind(k) {
            Some(n) => Some(own(n)),
            None => {
                return Err(
                    ApiError::bad_request(
                        "memory_kind must be one of: session, semantic, procedural, handoff",
                    ),
                )
            },
        },
    };
    let prefix = trim_non_empty(scope_prefix);
    match &prefix {
        Some(p) => {
            if !is_scope_allowed_for_capability("memory.read", p.as_str()) {
                return Err(
                    ApiError::bad_request("scope_prefix must use memory scope prefix (`memory:`)"),
                );
            }
        },
        None => {},
    }
    Ok((kind, prefix))
}

/// A memory listing: 100 records by default, at most 1000.
pub fn plan_memory_list_query(
    limit: Option<i64>,
    memory_kind: Option<&str>,
    scope_prefix: Option<&str>,
) -> (r: Result<MemoryFilters, ApiError>)
    ensures
        match (kind_filter_spec(opt_text(memory_kind)), r) {
            (Err(f), Err(e)) => e@ == f,
            (Ok(k), _) => match (scope_prefix_spec(opt_text(scope_prefix)), r) {
                (Err(f), Err(e)) => e@ == f,
                (Ok(s), Ok(p)) => opt_string(p.memory_kind) == k && opt_string(p.scope_prefix) == s
                    && p.limit == clamp_spec(or_default_i64(limit, 100), 1, 1000),
                _ => false,
            },
            _ => false,
        },
{
    let lim = limit_or_default(limit, 100, 1000);
    match kind_and_scope(memory_kind, scope_prefix) {
        Ok((k, s)) => Ok(MemoryFilters { limit: lim, memory_kind: k, scope_prefix: s }),
        Err(e) => Err(e),
    }
}

/// A retrieval query's plan: its filters, how many candidates to read, and
/// what candidates must satisfy.
#[derive(Debug)]
pub struct RetrievePlan {
    pub filters: MemoryFilters,
    pub candidate_limit: i64,
    pub query_text: Option<String>,
    pub source_prefix: Option<String>,
    pub require_summary: bool,
}

/// A retrieval: 20 records by default, at most 200; when anything narrows
/// the candidates down, five times as many are read first.
pub fn plan_memory_retrieve_query(
    limit: Option<i64>,
    memory_kind: Option<&str>,
    scope_prefix: Option<&str>,
    query_text: Option<&str>,
    source_prefix: Option<&str>,
    require_summary: Option<bool>,
    min_score_given: bool,
) -> (r: Result<RetrievePlan, ApiError>)
    ensures
        match (kind_filter_spec(opt_text(memory_kind)), r) {
            (Err(f), Err(e)) => e@ == f,
            (Ok(k), _) => match (scope_prefix_spec(opt_text(scope_prefix)), r) {
                (Err(f), Err(e)) => e@ == f,
                (Ok(s), Ok(p)) => {
                    let lim = clamp_spec(or_default_i64(limit, 20), 1, 200);
                    let narrowed = opt_string(p.query_text) is Some || min_score_given || opt_string(
                        p.source_prefix,
                    ) is Some || p.require_summary;
                    &&& opt_string(p.filters.memory_kind) == k
                    &&& opt_string(p.filters.scope_prefix) == s
                    &&& p.filters.limit == lim
                    &&& opt_string(p.query_text) == match opt_text(query_text) {
                        Some(q) => trim_non_empty_spec(q),
                        None => None,
                    }
                    &&& opt_string(p.source_prefix) == match opt_text(source_prefix) {
                        Some(q) => trim_non_empty_spec(q),
                        None => None,
                    }
                    &&& p.require_summary == match require_summary {
                        Some(b) => b,
                        None => false,
                    }
                    &&& p.candidate_limit == if narrowed {
                        5 * lim
                    } else {
                        lim
                    }
                },
                _ => false,
            },
            _ => false,
        },
{
    let lim = limit_or_default(limit, 20, 200);
    let (k, s) = match kind_and_scope(memory_kind, scope_prefix) {
        Ok(v) => v,
        Err(e) => return Err(e),
    };
    let q = trim_non_empty(query_text);
    let sp = trim_non_empty(source_prefix);
    let rs = match require_summary {
        Some(b) => b,
        None => false,
    };
    let candidate_limit = if q.is_some() || min_score_given || sp.is_some() || rs {
        lim * 5
    } else {
        lim
    };
    Ok(
        RetrievePlan {
            filters: MemoryFilters { limit: lim, memory_kind: k, scope_prefix: s },
            candidate_limit,
            query_text: q,
            source_prefix: sp,
            require_summary: rs,
        },
    )
}

/// A retrieval keeps a candidate whose source starts with the source
/// prefix (if any), and which has a non-blank summary where one is
/// required.
pub open spec fn candidate_kept_spec(
    source: Seq<char>,
    summary: Option<Seq<char>>,
    source_prefix: Option<Seq<char>>,
    require_summary: bool,
) -> bool {
    &&& match source_prefix {
        Some(p) => starts_with(source, p),
        None => true,
    }
    &&& (!require_summary || (summary matches Some(t) && trim(t).len() > 0))
}

/// A candidate is kept only if its source begins with the source prefix,
/// when one is given, and has a non-blank summary, when one is required;
/// a candidate that meets both is kept.
pub proof fn law_kept_candidate_starts_with_prefix(
    source: Seq<char>,
    summary: Option<Seq<char>>,
    source_prefix: Option<Seq<char>>,
    require_summary: bool,
)
    ensures
        source_prefix matches Some(p) ==> (candidate_kept_spec(source, summary, source_prefix, require_summary) ==> p.len() <= source.len()
            && source.subrange(0, p.len() as int) == p),
        source_prefix matches Some(p) ==> (p.len() <= source.len() && source.subrange(0, p.len() as int) == p
            && !require_summary ==> candidate_kept_spec(source, summary, source_prefix, require_summary)),
        source_prefix is None && !require_summary ==> candidate_kept_spec(source, summary, source_prefix, require_summary),
        require_summary && summary is None ==> !candidate_kept_spec(source, summary, source_prefix, require_summary),
        require_summary ==> (summary matches Some(t) ==> (trim(t).len() == 0 ==> !candidate_kept_spec(source, summary, source_prefix, require_summary))),
        source_prefix is None ==> (summary matches Some(t) ==> (trim(t).len() > 0 ==> candidate_kept_spec(source, summary, source_prefix, require_summary))),
{
}

pub fn memory_candidate_kept(
    source: &str,
    summary: Option<&str>,
    source_prefix: Option<&str>,
    require_summary: bool,
) -> (r: bool)
    ensures
        r == candidate_kept_spec(source@, opt_text(summary), opt_text(source_prefix), require_summary),
        opt_text(source_prefix) matches Some(p) ==> (r ==> p.len() <= source@.len()
            && source@.subrange(0, p.len() as int) == p),
        opt_text(source_prefix) matches Some(p) ==> (p.len() <= source@.len() && source@.subrange(0, p.len() as int) == p
            && !require_summary ==> r),
        opt_text(source_prefix) is None && !require_summary ==> r,
        require_summary && opt_text(summary) is None ==> !r,
        require_summary ==> (opt_text(summary) matches Some(t) ==> (trim(t).len() == 0 ==> !r)),
        opt_text(source_prefix) is None ==> (opt_text(summary) matches Some(t) ==> (trim(t).len() > 0 ==> r)),
{
    let s = to_chars(source);
    let prefix_ok = match source_prefix {
        Some(p) => {
            let pc = to_chars(p);
            starts_with_chars(s.as_slice(), pc.as_slice())
        },
        None => true,
    };
    let summary_ok = if !require_summary {
        true
    } else {
        match summary {
            Some(t) => {
                let tc = to_chars(t);
                trim_chars(tc.as_slice()).len() > 0
            },
            None => false,
        }
    };
    prefix_ok && summary_ok
}

/// The text a record is searched in: its summary and a space (where it has
/// a summary) followed by its content, ASCII-lowercased.
pub open spec fn haystack_spec(summary: Option<Seq<char>>, content_text: Seq<char>) -> Seq<char> {
    ascii_lower(
        match summary {
            Some(s) => s + " "@ + content_text,
            None => content_text,
        },
    )
}

pub fn retrieval_haystack(summary: Option<&str>, content_text: &str) -> (r: Vec<char>)
    ensures
        r@ == haystack_spec(opt_text(summary), content_text@),
{
    let mut m: Vec<char> = Vec::new();
    match summary {
        Some(s) => {
            append_str(&mut m, s);
            append_str(&mut m, " ");
        },
        None => {},
    }
    append_str(&mut m, content_text);
    proof {
        match summary {
            Some(s) => assert(m@ =~= s@ + " "@ + content_text@),
            None => assert(m@ =~= content_text@),
        }
    }
    lower_chars(m.as_slice())
}

/// The number of tokens found in the haystack.
pub open spec fn hit_count(haystack: Seq<char>, tokens: Seq<Seq<char>>) -> nat
    decreases tokens.len(),
{
    if tokens.len() == 0 {
        0
    } else {
        hit_count(haystack, tokens.drop_last()) + if contains_sub(haystack, tokens.last()) {
            1nat
        } else {
            0nat
        }
    }
}

/// A record's hit count is the number of query tokens found in its
/// haystack: none when no token occurs, every token when all of them do,
/// never more than there are tokens, and adding a token adds one exactly
/// when that token occurs.
pub proof fn law_hits_count_found_tokens(haystack: Seq<char>, tokens: Seq<Seq<char>>, extra: Seq<char>)
    ensures
        hit_count(haystack, tokens) <= tokens.len(),
        (forall|i: int| 0 <= i < tokens.len() ==> !contains_sub(haystack, #[trigger] tokens[i]))
            ==> hit_count(haystack, tokens) == 0,
        (forall|i: int| 0 <= i < tokens.len() ==> contains_sub(haystack, #[trigger] tokens[i]))
            ==> hit_count(haystack, tokens) == tokens.len(),
        hit_count(haystack, tokens.push(extra)) == hit_count(haystack, tokens) + if contains_sub(
            haystack,
            extra,
        ) {
            1int
        } else {
            0int
        },
    decreases tokens.len(),
{
    assert(tokens.push(extra).drop_last() =~= tokens);
    if tokens.len() > 0 {
        let init = tokens.drop_last();
        law_hits_count_found_tokens(haystack, init, tokens.last());
        assert(tokens.last() == tokens[tokens.len() - 1]);
        assert forall|i: int| 0 <= i < init.len() implies #[trigger] init[i] == tokens[i] by {}
    }
}

pub open spec fn texts(v: Seq<String>) -> Seq<Seq<char>> {
    v.map_values(|s: String| s@)
}

/// How many query tokens occur in a record's haystack.
pub fn token_hit_count(haystack: &[char], tokens: &Vec<String>) -> (r: usize)
    ensures
        r == hit_count(haystack@, texts(tokens@)),
        r <= tokens@.len(),
        (forall|i: int| 0 <= i < tokens@.len() ==> !contains_sub(haystack@, #[trigger] tokens@[i]@))
            ==> r == 0,
        (forall|i: int| 0 <= i < tokens@.len() ==> contains_sub(haystack@, #[trigger] tokens@[i]@))
            ==> r == tokens@.len(),
{
    proof {
        law_hits_count_found_tokens(haystack@, texts(tokens@), Seq::empty());
        let tv = texts(tokens@);
        assert forall|i: int| 0 <= i < tv.len() implies #[trigger] tv[i] == tokens@[i]@ by {}
    }
    let ghost tv = texts(tokens@);
    let mut n: usize = 0;
    let mut i: usize = 0;
    while i < tokens.len()
        invariant
            i <= tokens@.len(),
            tv == texts(tokens@),
            n == hit_count(haystack@, tv.take(i as int)),
            n <= i,
        decreases tokens.len() - i,
    {
        assert(tv.take(i + 1).drop_last() =~= tv.take(i as int));
        assert(tv.take(i + 1).last() == tokens@[i as int]@);
        let t = to_chars(tokens[i].as_str());
        if contains_chars(haystack, t.as_slice()) {
            n = n + 1;
        }
        i = i + 1;
    }
    assert(tv.take(tv.len() as int) =~= tv);
    n
}


pub open spec fn is_ascii_alnum(c: char) -> bool {
    ('a' <= c && c <= 'z') || ('A' <= c && c <= 'Z') || ('0' <= c && c <= '9')
}

/// Reading a query left to right: the words completed so far and the one
/// being read; any character but an ASCII letter or digit ends a word.
pub open spec fn word_scan(s: Seq<char>) -> (Seq<Seq<char>>, Seq<char>)
    decreases s.len(),
{
    if s.len() == 0 {
        (Seq::empty(), Seq::empty())
    } else {
        let (done, cur) = word_scan(s.drop_last());
        if is_ascii_alnum(s.last()) {
            (done, cur.push(s.last()))
        } else {
            (done.push(cur), Seq::empty())
        }
    }
}

/// The words of a query, empty ones included.
pub open spec fn words(s: Seq<char>) -> Seq<Seq<char>> {
    word_scan(s).0.push(word_scan(s).1)
}

/// The non-empty words, ASCII-lowercased.
pub open spec fn lowered_words(ws: Seq<Seq<char>>) -> Seq<Seq<char>>
    decreases ws.len(),
{
    if ws.len() == 0 {
        Seq::empty()
    } else {
        let k = lowered_words(ws.drop_last());
        if ws.last().len() > 0 {
            k.push(ascii_lower(ws.last()))
        } else {
            k
        }
    }
}

/// Texts in strictly increasing order (so none twice).
pub open spec fn strictly_sorted(v: Seq<Seq<char>>) -> bool {
    forall|i: int, j: int| 0 <= i < j < v.len() ==> text_lt(#[trigger] v[i], #[trigger] v[j])
}

fn insert_token(set: &mut Vec<Vec<char>>, tok: Vec<char>)
    requires
        strictly_sorted(vecs_view(old(set)@)),
    ensures
        strictly_sorted(vecs_view(final(set)@)),
        forall|t: Seq<char>|
            vecs_view(final(set)@).contains(t) <==> (vecs_view(old(set)@).contains(t) || t
                == tok@),
{
    let ghost old_v = vecs_view(set@);
    let mut p: usize = 0;
    while p < set.len() && text_lt_exec(set[p].as_slice(), tok.as_slice())
        invariant
            p <= set@.len(),
            vecs_view(set@) == old_v,
            strictly_sorted(old_v),
            forall|i: int| 0 <= i < p ==> text_lt(#[trigger] old_v[i], tok@),
        decreases set.len() - p,
    {
        p = p + 1;
    }
    if p < set.len() && chars_eq(set[p].as_slice(), tok.as_slice()) {
        proof {
            assert(old_v[p as int] == tok@);
            assert forall|t: Seq<char>| vecs_view(set@).contains(t) <==> (old_v.contains(t) || t == tok@) by {
                if t == tok@ {
                    assert(old_v.contains(t));
                }
            }
        }
        return;
    }
    proof {
        if p < set@.len() {
            lemma_text_lt_total(old_v[p as int], tok@);
        }
    }
    let ghost t = tok@;
    set.insert(p, tok);
    proof {
        let nv = vecs_view(set@);
        assert(nv =~= old_v.take(p as int).push(t) + old_v.skip(p as int));
        assert forall|i: int, j: int| 0 <= i < j < nv.len() implies text_lt(#[trigger] nv[i], #[trigger] nv[j]) by {
            if j < p {
                assert(nv[i] == old_v[i] && nv[j] == old_v[j]);
            } else if j == p {
                assert(nv[i] == old_v[i]);
            } else if i == p {
                assert(nv[j] == old_v[j - 1]);
                if j - 1 > p {
                    lemma_text_lt_transitive(t, old_v[p as int], old_v[j - 1]);
                }
            } else if i < p {
                assert(nv[i] == old_v[i] && nv[j] == old_v[j - 1]);
            } else {
                assert(nv[i] == old_v[i - 1] && nv[j] == old_v[j - 1]);
            }
        }
        assert forall|x: Seq<char>| nv.contains(x) <==> (old_v.contains(x) || x == t) by {
            if nv.contains(x) {
                let k = choose|k: int| 0 <= k < nv.len() && nv[k] == x;
                if k < p {
                    assert(old_v[k] == x);
                } else if k > p {
                    assert(old_v[k - 1] == x);
                }
            }
            if old_v.contains(x) {
                let k = choose|k: int| 0 <= k < old_v.len() && old_v[k] == x;
                if k < p {
                    assert(nv[k] == x);
                } else {
                    assert(nv[k + 1] == x);
                }
            }
            if x == t {
                assert(nv[p as int] == x);
            }
        }
    }
}

fn flush_word(set: &mut Vec<Vec<char>>, word: &Vec<char>, ghost_done: Ghost<Seq<Seq<char>>>)
    requires
        strictly_sorted(vecs_view(old(set)@)),
        forall|t: Seq<char>| vecs_view(old(set)@).contains(t) <==> lowered_words(ghost_done@).contains(t),
    ensures
        strictly_sorted(vecs_view(final(set)@)),
        forall|t: Seq<char>|
            vecs_view(final(set)@).contains(t) <==> lowered_words(ghost_done@.push(word@)).contains(t),
{
    assert(ghost_done@.push(word@).drop_last() =~= ghost_done@);
    assert(ghost_done@.push(word@).last() == word@);
    if word.len() == 0 {
        assert(lowered_words(ghost_done@.push(word@)) == lowered_words(ghost_done@));
    }
    if word.len() > 0 {
        let low = lower_chars(word.as_slice());
        insert_token(set, low);
        proof {
            let prev = lowered_words(ghost_done@);
            assert(lowered_words(ghost_done@.push(word@)) == prev.push(ascii_lower(word@)));
            assert forall|t: Seq<char>| prev.push(ascii_lower(word@)).contains(t) <==> (prev.contains(t) || t == ascii_lower(word@)) by {
                if prev.push(ascii_lower(word@)).contains(t) {
                    let k = choose|k: int| 0 <= k < prev.len() + 1 && prev.push(ascii_lower(word@))[k] == t;
                    if k < prev.len() {
                        assert(prev[k] == t);
                    }
                }
                if prev.contains(t) {
                    let k = choose|k: int| 0 <= k < prev.len() && prev[k] == t;
                    assert(prev.push(ascii_lower(word@))[k] == t);
                }
                if t == ascii_lower(word@) {
                    assert(prev.push(ascii_lower(word@))[prev.len() as int] == t);
                }
            }
            assert forall|t: Seq<char>| vecs_view(set@).contains(t) <==> lowered_words(ghost_done@.push(word@)).contains(t) by {
                assert(vecs_view(set@).contains(t) <==> (vecs_view(old(set)@).contains(t) || t == ascii_lower(word@)));
                assert(vecs_view(old(set)@).contains(t) <==> prev.contains(t));
            }
        }
    }
}

/// The tokens of a retrieval query: its words of ASCII letters and digits,
/// lowercased, sorted and without repeats.
pub fn tokenize_retrieval_query(raw: &str) -> (r: Vec<String>)
    ensures
        strictly_sorted(texts(r@)),
        forall|t: Seq<char>| texts(r@).contains(t) <==> lowered_words(words(raw@)).contains(t),
{
    let c = to_chars(raw);
    let mut set: Vec<Vec<char>> = Vec::new();
    let mut cur: Vec<char> = Vec::new();
    let mut i: usize = 0;
    assert(c@.take(0) =~= Seq::<char>::empty());
    assert(vecs_view(set@) =~= Seq::<Seq<char>>::empty());
    while i < c.len()
        invariant
            i <= c@.len(),
            c@ == raw@,
            word_scan(c@.take(i as int)).1 == cur@,
            strictly_sorted(vecs_view(set@)),
            forall|t: Seq<char>|
                vecs_view(set@).contains(t) <==> lowered_words(word_scan(c@.take(i as int)).0).contains(t),
        decreases c.len() - i,
    {
        assert(c@.take(i + 1).drop_last() =~= c@.take(i as int));
        assert(c@.take(i + 1).last() == c@[i as int]);
        let ch = c[i];
        if ('a' <= ch && ch <= 'z') || ('A' <= ch && ch <= 'Z') || ('0' <= ch && ch <= '9') {
            cur.push(ch);
        } else {
            flush_word(&mut set, &cur, Ghost(word_scan(c@.take(i as int)).0));
            cur = Vec::new();
        }
        i = i + 1;
    }
    assert(c@.take(c@.len() as int) =~= c@);
    flush_word(&mut set, &cur, Ghost(word_scan(c@).0));
    let mut out: Vec<String> = Vec::new();
    let mut k: usize = 0;
    while k < set.len()
        invariant
            k <= set@.len(),
            texts(out@) == vecs_view(set@).take(k as int),
        decreases set.len() - k,
    {
        let ghost before = out@;
        out.push(from_chars(set[k].as_slice()));
        proof {
            assert(texts(out@) =~= texts(before).push(set@[k as int]@));
            assert(vecs_view(set@).take(k + 1) =~= vecs_view(set@).take(k as int).push(set@[k as int]@));
        }
        k = k + 1;
    }
    assert(vecs_view(set@).take(set@.len() as int) =~= vecs_view(set@));
    out
}

/// A lower-case ASCII letter or a digit.
pub open spec fn is_token_char(c: char) -> bool {
    ('a' <= c && c <= 'z') || ('0' <= c && c <= '9')
}

/// A token: non-empty, of lower-case ASCII letters and digits only.
pub open spec fn is_token(t: Seq<char>) -> bool {
    t.len() > 0 && forall|k: int| 0 <= k < t.len() ==> is_token_char(#[trigger] t[k])
}

proof fn lemma_word_scan_alnum(s: Seq<char>)
    ensures
        forall|k: int| 0 <= k < word_scan(s).1.len() ==> is_ascii_alnum(#[trigger] word_scan(s).1[k]),
        forall|i: int, k: int|
            0 <= i < word_scan(s).0.len() && 0 <= k < word_scan(s).0[i].len() ==> is_ascii_alnum(
                #[trigger] word_scan(s).0[i][k],
            ),
    decreases s.len(),
{
    if s.len() > 0 {
        lemma_word_scan_alnum(s.drop_last());
        let (done, cur) = word_scan(s.drop_last());
        if is_ascii_alnum(s.last()) {
            assert forall|k: int| 0 <= k < cur.push(s.last()).len() implies is_ascii_alnum(
                #[trigger] cur.push(s.last())[k],
            ) by {
                if k < cur.len() {
                    assert(cur.push(s.last())[k] == cur[k]);
                }
            }
        } else {
            assert forall|i: int, k: int|
                0 <= i < done.push(cur).len() && 0 <= k < done.push(cur)[i].len() implies is_ascii_alnum(
                #[trigger] done.push(cur)[i][k],
            ) by {
                if i < done.len() {
                    assert(done.push(cur)[i] == done[i]);
                } else {
                    assert(done.push(cur)[i] == cur);
                }
            }
        }
    }
}

proof fn lemma_lowered_tokens(ws: Seq<Seq<char>>)
    requires
        forall|i: int, k: int| 0 <= i < ws.len() && 0 <= k < ws[i].len() ==> is_ascii_alnum(#[trigger] ws[i][k]),
    ensures
        forall|i: int| 0 <= i < lowered_words(ws).len() ==> is_token(#[trigger] lowered_words(ws)[i]),
    decreases ws.len(),
{
    if ws.len() > 0 {
        let init = ws.drop_last();
        assert forall|i: int, k: int| 0 <= i < init.len() && 0 <= k < init[i].len() implies is_ascii_alnum(
            #[trigger] init[i][k],
        ) by {
            assert(init[i] == ws[i]);
        }
        lemma_lowered_tokens(init);
        let acc = lowered_words(init);
        let w = ws.last();
        if w.len() > 0 {
            let lw = ascii_lower(w);
            assert forall|k: int| 0 <= k < lw.len() implies is_token_char(#[trigger] lw[k]) by {
                assert(is_ascii_alnum(ws[ws.len() - 1][k]));
                assert(lw[k] == lower_char(w[k]));
            }
            assert forall|i: int| 0 <= i < acc.push(lw).len() implies is_token(#[trigger] acc.push(lw)[i]) by {
                if i < acc.len() {
                    assert(acc.push(lw)[i] == acc[i]);
                }
            }
        }
    }
}

proof fn lemma_word_scan_append(x: Seq<char>, y: Seq<char>)
    requires
        forall|k: int| 0 <= k < y.len() ==> is_ascii_alnum(#[trigger] y[k]),
    ensures
        word_scan(x + y) == (word_scan(x).0, word_scan(x).1 + y),
    decreases y.len(),
{
    if y.len() == 0 {
        assert(x + y =~= x);
        assert(word_scan(x).1 + y =~= word_scan(x).1);
    } else {
        let yi = y.drop_last();
        lemma_word_scan_append(x, yi);
        assert((x + y).drop_last() =~= x + yi);
        assert((x + y).last() == y[y.len() - 1]);
        assert(word_scan(x).1 + yi + seq![y.last()] =~= word_scan(x).1 + y);
        assert((word_scan(x).1 + yi).push(y.last()) =~= word_scan(x).1 + y);
    }
}

proof fn lemma_words_of_join(r: Seq<Seq<char>>)
    requires
        r.len() > 0,
        forall|i: int| 0 <= i < r.len() ==> is_token(#[trigger] r[i]),
    ensures
        words(join_with(r, ' ')) == r,
    decreases r.len(),
{
    if r.len() == 1 {
        assert(is_token(r[0]));
        lemma_word_scan_append(Seq::empty(), r[0]);
        assert(Seq::<char>::empty() + r[0] =~= r[0]);
        assert(word_scan(Seq::<char>::empty()).1 + r[0] =~= r[0]);
        assert(words(join_with(r, ' ')) =~= r);
    } else {
        let init = r.drop_last();
        assert forall|i: int| 0 <= i < init.len() implies is_token(#[trigger] init[i]) by {
            assert(init[i] == r[i]);
        }
        lemma_words_of_join(init);
        let j = join_with(init, ' ');
        let js = j + seq![' '];
        assert(js.drop_last() =~= j);
        assert(js.last() == ' ');
        assert(word_scan(js) == (words(j), Seq::<char>::empty()));
        assert(is_token(r[r.len() - 1]));
        lemma_word_scan_append(js, r.last());
        assert(join_with(r, ' ') == js + r.last());
        assert(Seq::<char>::empty() + r.last() =~= r.last());
        assert(words(join_with(r, ' ')) =~= init.push(r.last()));
        assert(init.push(r.last()) =~= r);
    }
}

proof fn lemma_lowered_of_tokens(r: Seq<Seq<char>>)
    requires
        forall|i: int| 0 <= i < r.len() ==> is_token(#[trigger] r[i]),
    ensures
        lowered_words(r) == r,
    decreases r.len(),
{
    if r.len() > 0 {
        let init = r.drop_last();
        assert forall|i: int| 0 <= i < init.len() implies is_token(#[trigger] init[i]) by {
            assert(init[i] == r[i]);
        }
        lemma_lowered_of_tokens(init);
        let w = r.last();
        assert(is_token(r[r.len() - 1]));
        assert(ascii_lower(w) =~= w) by {
            assert forall|k: int| 0 <= k < w.len() implies ascii_lower(w)[k] == w[k] by {
                assert(is_token_char(w[k]));
            }
        }
        assert(init.push(w) =~= r);
    } else {
        assert(r =~= Seq::<Seq<char>>::empty());
    }
}

/// Two strictly sorted lists with the same elements are the same list.
proof fn lemma_sorted_unique(a: Seq<Seq<char>>, b: Seq<Seq<char>>)
    requires
        strictly_sorted(a),
        strictly_sorted(b),
        forall|t: Seq<char>| a.contains(t) <==> b.contains(t),
    ensures
        a == b,
    decreases a.len() + b.len(),
{
    if a.len() == 0 {
        if b.len() > 0 {
            assert(b.contains(b[0]));
        }
        assert(a =~= b);
    } else if b.len() == 0 {
        assert(a.contains(a[0]));
    } else {
        assert(a.contains(a[0]) && b.contains(b[0]));
        let i = choose|i: int| 0 <= i < b.len() && b[i] == a[0];
        let j = choose|j: int| 0 <= j < a.len() && a[j] == b[0];
        if a[0] != b[0] {
            assert(i > 0 && j > 0);
            assert(text_lt(b[0], b[i]));
            assert(text_lt(a[0], a[j]));
            lemma_text_lt_asymmetric(b[0], a[0]);
        }
        let a1 = a.drop_first();
        let b1 = b.drop_first();
        assert forall|x: int, y: int| 0 <= x < y < a1.len() implies text_lt(#[trigger] a1[x], #[trigger] a1[y]) by {
            assert(a1[x] == a[x + 1] && a1[y] == a[y + 1]);
        }
        assert forall|x: int, y: int| 0 <= x < y < b1.len() implies text_lt(#[trigger] b1[x], #[trigger] b1[y]) by {
            assert(b1[x] == b[x + 1] && b1[y] == b[y + 1]);
        }
        assert forall|t: Seq<char>| a1.contains(t) <==> b1.contains(t) by {
            if a1.contains(t) {
                let k = choose|k: int| 0 <= k < a1.len() && a1[k] == t;
                assert(a[k + 1] == t);
                assert(text_lt(a[0], a[k + 1]));
                if t == a[0] {
                    lemma_text_lt_irreflexive(t);
                }
                assert(b.contains(t));
                let m = choose|m: int| 0 <= m < b.len() && b[m] == t;
                assert(m != 0);
                assert(b1[m - 1] == t);
            }
            if b1.contains(t) {
                let k = choose|k: int| 0 <= k < b1.len() && b1[k] == t;
                assert(b[k + 1] == t);
                assert(text_lt(b[0], b[k + 1]));
                if t == b[0] {
                    lemma_text_lt_irreflexive(t);
                }
                assert(a.contains(t));
                let m = choose|m: int| 0 <= m < a.len() && a[m] == t;
                assert(m != 0);
                assert(a1[m - 1] == t);
            }
        }
        lemma_sorted_unique(a1, b1);
        assert(a =~= seq![a[0]] + a1);
        assert(b =~= seq![b[0]] + b1);
    }
}

/// Query tokens are plain: every token is non-empty and made of lower-case
/// ASCII letters and digits only. And tokenizing the tokens joined by
/// spaces gives the same tokens back: `r` is what tokenizing `raw` yields
/// (its contract), and `r2` is what tokenizing the joined tokens yields.
pub proof fn law_tokens_are_plain_and_stable(raw: Seq<char>, r: Seq<Seq<char>>, r2: Seq<Seq<char>>)
    requires
        strictly_sorted(r),
        forall|t: Seq<char>| r.contains(t) <==> lowered_words(words(raw)).contains(t),
    ensures
        forall|i: int| 0 <= i < r.len() ==> is_token(#[trigger] r[i]),
        (strictly_sorted(r2) && forall|t: Seq<char>|
            r2.contains(t) <==> lowered_words(words(join_with(r, ' '))).contains(t)) ==> r2 == r,
{
    let ws = words(raw);
    lemma_word_scan_alnum(raw);
    let (done, cur) = word_scan(raw);
    assert forall|i: int, k: int| 0 <= i < ws.len() && 0 <= k < ws[i].len() implies is_ascii_alnum(
        #[trigger] ws[i][k],
    ) by {
        if i < done.len() {
            assert(ws[i] == done[i]);
        } else {
            assert(ws[i] == cur);
        }
    }
    lemma_lowered_tokens(ws);
    assert forall|i: int| 0 <= i < r.len() implies is_token(#[trigger] r[i]) by {
        assert(r.contains(r[i]));
        let j = choose|j: int| 0 <= j < lowered_words(ws).len() && lowered_words(ws)[j] == r[i];
    }
    if strictly_sorted(r2) && forall|t: Seq<char>|
        r2.contains(t) <==> lowered_words(words(join_with(r, ' '))).contains(t) {
        if r.len() > 0 {
            lemma_words_of_join(r);
            lemma_lowered_of_tokens(r);
        } else {
            assert(join_with(r, ' ') =~= Seq::<char>::empty());
            assert(words(Seq::<char>::empty()) =~= seq![Seq::<char>::empty()]);
            let one = seq![Seq::<char>::empty()];
            assert(one.drop_last() =~= Seq::<Seq<char>>::empty());
            assert(one.last().len() == 0);
            assert(lowered_words(Seq::<Seq<char>>::empty()) == Seq::<Seq<char>>::empty());
            assert(lowered_words(one) =~= Seq::<Seq<char>>::empty());
            assert(lowered_words(words(join_with(r, ' '))) =~= r);
        }
        lemma_sorted_unique(r2, r);
    }
}

/// A stored memory record, as far as reading a handoff packet back needs.
#[derive(Debug)]
pub struct HandoffRecord {
    pub id: u128,
    pub agent_id: u128,
    pub summary_text: Option<String>,
    pub content_json: JsonValue,
}

/// A handoff packet read back from its memory record.
#[derive(Debug)]
pub struct HandoffPacket {
    pub packet_id: u128,
    pub from_agent_id: u128,
    pub to_agent_id: u128,
    pub title: String,
    pub payload_json: JsonValue,
}

/// A text field of the content that parses as a UUID.
pub open spec fn uuid_field(v: JsonValue, key: Seq<char>) -> Option<u128> {
    match str_field(v, key) {
        Some(s) => uuid_parse(s),
        None => None,
    }
}

fn uuid_field_of(v: &JsonValue, key: &str) -> (r: Option<u128>)
    ensures
        r == uuid_field(*v, key@),
{
    match str_field_of(v, key) {
        Some(s) => parse_uuid(s.as_str()),
        None => None,
    }
}

/// The value of a field of an object, taken out of it; the whole value
/// where there is no such field.
fn take_field_or_whole(v: JsonValue, key: &str) -> (r: JsonValue)
    ensures
        r == match get(v, key@) {
            Some(x) => x,
            None => v,
        },
{
    match v {
        JsonValue::Object(mut fs) => {
            let k = to_chars(key);
            match find_key(&fs, k.as_slice()) {
                Some(i) => {
                    proof {
                        let c = choose|j: int| key_pos(fs@, key@, j);
                        lemma_key_pos_unique(fs@, key@, i as int, c);
                    }
                    let f = fs.remove(i);
                    f.value
                },
                None => JsonValue::Object(fs),
            }
        },
        other => other,
    }
}

/// Reads a handoff packet back from its record: the packet and receiver
/// from the content (falling back on the record's id and agent), the
/// sender from the content (required), the title from the summary, the
/// content's title or `handoff`, and the payload from the content's
/// `payload_json` (the whole content where it has none).
pub fn handoff_packet_from_memory_record(record: HandoffRecord) -> (r: Result<HandoffPacket, ApiError>)
    ensures
        match uuid_field(record.content_json, "from_agent_id"@) {
            None => r matches Err(e) && e@ == internal(
                "handoff memory record "@ + uuid_text(record.id) + " missing from_agent_id"@,
            ),
            Some(from) => r matches Ok(p) && {
                &&& p.from_agent_id == from
                &&& p.packet_id == match uuid_field(record.content_json, "packet_id"@) {
                    Some(u) => u,
                    None => record.id,
                }
                &&& p.to_agent_id == match uuid_field(record.content_json, "to_agent_id"@) {
                    Some(u) => u,
                    None => record.agent_id,
                }
                &&& p.title@ == match record.summary_text {
                    Some(s) => s@,
                    None => match str_field(record.content_json, "title"@) {
                        Some(t) => t,
                        None => "handoff"@,
                    },
                }
                &&& p.payload_json == match get(record.content_json, "payload_json"@) {
                    Some(x) => x,
                    None => record.content_json,
                }
            },
        },
{
    let packet_id = match uuid_field_of(&record.content_json, "packet_id") {
        Some(u) => u,
        None => record.id,
    };
    let from = match uuid_field_of(&record.content_json, "from_agent_id") {
        Some(u) => u,
        None => {
            let mut m: Vec<char> = Vec::new();
            append_str(&mut m, "handoff memory record ");
            let id = uuid_to_text(record.id);
            append_str(&mut m, id.as_str());
            append_str(&mut m, " missing from_agent_id");
            return Err(ApiError::internal(from_chars(m.as_slice()).as_str()));
        },
    };
    let to = match uuid_field_of(&record.content_json, "to_agent_id") {
        Some(u) => u,
        None => record.agent_id,
    };
    let title = match record.summary_text {
        Some(s) => s,
        None => match str_field_of(&record.content_json, "title") {
            Some(t) => t,
            None => own("handoff"),
        },
    };
    let payload = take_field_or_whole(record.content_json, "payload_json");
    Ok(
        HandoffPacket {
            packet_id,
            from_agent_id: from,
            to_agent_id: to,
            title,
            payload_json: payload,
        },
    )
}

/// A record may only name a run of the tenant.
pub fn ensure_memory_run_found(run_exists: bool) -> (r: Result<(), ApiError>)
    ensures
        run_exists <==> r is Ok,
        r matches Err(e) ==> e@ == bad_request("run_id is not found for this tenant"@),
{
    if run_exists {
        Ok(())
    } else {
        Err(ApiError::bad_request("run_id is not found for this tenant"))
    }
}

/// A record may only name a step of its run.
pub fn ensure_memory_step_found(matching_steps: i64) -> (r: Result<(), ApiError>)
    ensures
        matching_steps != 0 <==> r is Ok,
        r matches Err(e) ==> e@ == bad_request("step_id is not found for this tenant/run"@),
{
    if matching_steps == 0 {
        Err(ApiError::bad_request("step_id is not found for this tenant/run"))
    } else {
        Ok(())
    }
}

/// A purge records an audit event on a run only where it deleted some of
/// the run's records.
pub fn memory_purge_audit_due(run_deleted_count: i64) -> (r: bool)
    ensures
        r == (run_deleted_count > 0),
{
    run_deleted_count > 0
}
} // verus!
